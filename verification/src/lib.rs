//! A per-guild virtual currency ledger with a community vote that can reset
//! it. The ledger maps each guild to its users' balances; a per-guild vote
//! state machine gates a full balance reset behind quorum, majority and
//! cooldown rules; and the whole state exports to and imports from a flat
//! record list for snapshots.

pub mod clock;
pub mod commands;
pub mod data;
pub mod events;
pub mod snapshot;
pub mod sort;
pub mod sum;
pub mod tables;
pub mod types;
pub mod vote;
