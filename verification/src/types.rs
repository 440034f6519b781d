//! Core data types of the ledger: balance records, per-guild vote
//! configuration and status, command enums, and the error taxonomy.

use vstd::prelude::*;

verus! {

/// One balance entry of the flat snapshot record format: a user's balance in
/// one guild.
#[derive(Clone, Copy, Debug, PartialEq, Eq, Structural)]
pub struct UserBalance {
    pub guild_id: u64,
    pub user_id: u64,
    pub balance: u32,
}

/// Per-guild configuration of the reset vote: cooldown between votes, how long
/// a vote runs, the quorum, and the majority threshold.
#[derive(Clone, Copy, Debug, PartialEq, Eq, Structural)]
pub struct VoteConfig {
    pub cooldown_hours: u32,
    pub duration_minutes: u32,
    pub min_votes: u32,
    pub majority_percentage: u32,
}

impl Default for VoteConfig {
    /// The default vote rules: one vote per day, half an hour of voting,
    /// at least ten ballots, and a 70% majority.
    fn default() -> (r: Self)
        ensures
            r == (VoteConfig {
                cooldown_hours: 24,
                duration_minutes: 30,
                min_votes: 10,
                majority_percentage: 70,
            }),
    {
        VoteConfig { cooldown_hours: 24, duration_minutes: 30, min_votes: 10, majority_percentage: 70 }
    }
}

/// The state of a guild's reset vote. Times are seconds since the Unix epoch.
/// At most one of `yes_votes`/`no_votes` holds a given user id.
#[derive(Clone, Debug, PartialEq)]
pub struct VoteStatus {
    pub active: bool,
    pub start_time: Option<u64>,
    pub end_time: Option<u64>,
    pub initiator_id: Option<u64>,
    pub yes_votes: Vec<u64>,
    pub no_votes: Vec<u64>,
    pub last_vote_time: Option<u64>,
}

impl Default for VoteStatus {
    /// No vote has ever run: inactive, empty ballots, no recorded times.
    fn default() -> (r: Self)
        ensures
            !r.active,
            r.start_time.is_none(),
            r.end_time.is_none(),
            r.initiator_id.is_none(),
            r.yes_votes@ == Seq::<u64>::empty(),
            r.no_votes@ == Seq::<u64>::empty(),
            r.last_vote_time.is_none(),
    {
        VoteStatus {
            active: false,
            start_time: None,
            end_time: None,
            initiator_id: None,
            yes_votes: Vec::new(),
            no_votes: Vec::new(),
            last_vote_time: None,
        }
    }
}

/// A vote status is well formed when neither ballot list repeats a user, no
/// user sits in both lists, and an active vote carries its start and end
/// times in order.
pub open spec fn status_wf(s: VoteStatus) -> bool {
    &&& s.yes_votes@.no_duplicates()
    &&& s.no_votes@.no_duplicates()
    &&& forall|u: u64| !(s.yes_votes@.contains(u) && s.no_votes@.contains(u))
    &&& (s.active ==> s.start_time.is_some() && s.end_time.is_some()
        && s.start_time.unwrap() <= s.end_time.unwrap())
}

/// Everything the store keeps about one guild.
#[derive(Clone, Debug, PartialEq)]
pub struct GuildConfig {
    pub guild_id: u64,
    pub giver_role_id: Option<u64>,
    pub vote_config: VoteConfig,
    pub vote_status: VoteStatus,
}

/// Holds of the status a guild starts with: inactive, empty ballots, no
/// recorded times.
pub open spec fn is_default_status(s: VoteStatus) -> bool {
    &&& !s.active
    &&& s.start_time.is_none()
    &&& s.end_time.is_none()
    &&& s.initiator_id.is_none()
    &&& s.yes_votes@ == Seq::<u64>::empty()
    &&& s.no_votes@ == Seq::<u64>::empty()
    &&& s.last_vote_time.is_none()
}

impl Default for GuildConfig {
    /// An untouched guild: no giver role, default vote rules, no vote state.
    fn default() -> (r: Self)
        ensures
            r.guild_id == 0,
            r.giver_role_id.is_none(),
            r.vote_config == VoteConfig::default_spec(),
            is_default_status(r.vote_status),
    {
        GuildConfig {
            guild_id: 0,
            giver_role_id: None,
            vote_config: VoteConfig::default(),
            vote_status: VoteStatus::default(),
        }
    }
}

impl VoteConfig {
    /// The default vote rules, as a spec-level value.
    pub open spec fn default_spec() -> VoteConfig {
        VoteConfig { cooldown_hours: 24, duration_minutes: 30, min_votes: 10, majority_percentage: 70 }
    }
}

/// What a `/vote` invocation asks for.
#[derive(Clone, Copy, Debug, PartialEq, Eq, Structural)]
pub enum VoteDecision {
    Start,
    Yes,
    No,
}

/// The recoverable failures of the vote state machine and of configuration
/// updates. Ledger credits and debits never fail; only vote transitions do.
#[derive(Clone, Copy, Debug, PartialEq, Eq, Structural)]
pub enum VoteError {
    NoActiveVote,
    VoteAlreadyActive,
    CooldownInEffect,
    VoteEnded,
    InvalidPercentage,
}

impl VoteError {
    /// The user-facing text of each failure.
    pub fn message(&self) -> &'static str {
        match self {
            VoteError::NoActiveVote => "No vote is active in this server",
            VoteError::VoteAlreadyActive => "A vote is already active in this server",
            VoteError::CooldownInEffect => "A vote was recently completed. Please wait for the cooldown period to end",
            VoteError::VoteEnded => "The vote has ended",
            VoteError::InvalidPercentage => "Majority percentage cannot be greater than 100%",
        }
    }
}

} // verus!
