//! The two concurrent tables behind the store, held as `dashmap::DashMap`s so
//! that unrelated guilds never contend. Verus sees each table through an
//! abstract map of its contents; the small functions here are the only code
//! that touches the maps directly, and each one's contract states what the
//! corresponding `DashMap` operation does to the contents.
//!
//! Concurrency itself is not modelled: the verified store takes `&mut self`,
//! and the contracts describe the tables as seen by one caller at a time.

use vstd::prelude::*;

use crate::sort::keys_of;
use crate::types::GuildConfig;

verus! {

#[verifier::external_type_specification]
#[verifier::external_body]
#[verifier::reject_recursive_types(K)]
#[verifier::reject_recursive_types(V)]
#[verifier::reject_recursive_types(S)]
pub struct ExDashMap<K, V, S>(dashmap::DashMap<K, V, S>);

/// What the balance table holds: guild id -> (user id -> balance). A guild
/// key may be present with an empty inner map after a reset.
pub uninterp spec fn balance_view(
    m: dashmap::DashMap<u64, dashmap::DashMap<u64, u32>>,
) -> Map<u64, Map<u64, u32>>;

/// What the configuration table holds: guild id -> configuration entry.
pub uninterp spec fn config_view(m: dashmap::DashMap<u64, GuildConfig>) -> Map<u64, GuildConfig>;

/// The balance stored for `(g, u)`, with absence flattened to zero: a user
/// with no entry has a balance of zero.
pub open spec fn guild_balance_in(b: Map<u64, Map<u64, u32>>, g: u64, u: u64) -> u32 {
    if b.contains_key(g) && b[g].contains_key(u) {
        b[g][u]
    } else {
        0
    }
}

/// The balance map after storing `v` for `(g, u)`, creating the guild's inner
/// map if it was absent.
pub open spec fn balance_upsert(
    b: Map<u64, Map<u64, u32>>,
    g: u64,
    u: u64,
    v: u32,
) -> Map<u64, Map<u64, u32>> {
    if b.contains_key(g) {
        b.insert(g, b[g].insert(u, v))
    } else {
        b.insert(g, Map::<u64, u32>::empty().insert(u, v))
    }
}

/// Relies on `dashmap::DashMap::new`: a freshly created map is empty.
#[verifier::external_body]
pub(crate) fn new_balance_table() -> (m: dashmap::DashMap<u64, dashmap::DashMap<u64, u32>>)
    ensures
        balance_view(m) == (Map::<u64, Map<u64, u32>>::empty()),
{
    dashmap::DashMap::new()
}

/// Relies on `dashmap::DashMap::get` at both levels: returns the value stored
/// under the key, or nothing when either level lacks its key.
#[verifier::external_body]
pub(crate) fn balance_read(
    m: &dashmap::DashMap<u64, dashmap::DashMap<u64, u32>>,
    g: u64,
    u: u64,
) -> (r: Option<u32>)
    ensures
        r == (if balance_view(*m).contains_key(g) && balance_view(*m)[g].contains_key(u) {
            Some(balance_view(*m)[g][u])
        } else {
            None::<u32>
        }),
{
    m.get(&g).and_then(|gm| gm.get(&u).map(|b| *b))
}

/// Relies on `dashmap::DashMap::entry` (`or_insert_with` a fresh empty map)
/// and `dashmap::DashMap::insert`: stores `v` under `(g, u)`, creating the
/// guild's inner map if absent, and touches no other entry.
#[verifier::external_body]
pub(crate) fn balance_write(
    m: &mut dashmap::DashMap<u64, dashmap::DashMap<u64, u32>>,
    g: u64,
    u: u64,
    v: u32,
)
    ensures
        balance_view(*final(m)) == balance_upsert(balance_view(*old(m)), g, u, v),
{
    m.entry(g).or_insert_with(dashmap::DashMap::new).insert(u, v);
}

/// Relies on `dashmap::DashMap::iter`: yields each guild key exactly once, in
/// an unspecified order.
#[verifier::external_body]
pub(crate) fn balance_guild_ids(m: &dashmap::DashMap<u64, dashmap::DashMap<u64, u32>>) -> (r: Vec<
    u64,
>)
    ensures
        r@.no_duplicates(),
        forall|i: int| 0 <= i < r@.len() ==> balance_view(*m).contains_key(#[trigger] r@[i]),
        forall|g: u64| balance_view(*m).contains_key(g) ==> r@.contains(g),
{
    m.iter().map(|e| *e.key()).collect()
}

/// Relies on `dashmap::DashMap::get` and `dashmap::DashMap::iter` on the inner
/// map: yields each of the guild's `(user, balance)` entries exactly once, in
/// an unspecified order, and nothing for an absent guild.
#[verifier::external_body]
pub(crate) fn balance_guild_entries(
    m: &dashmap::DashMap<u64, dashmap::DashMap<u64, u32>>,
    g: u64,
) -> (r: Vec<(u64, u32)>)
    ensures
        keys_of(r@).no_duplicates(),
        forall|i: int|
            0 <= i < r@.len() ==> balance_view(*m).contains_key(g) && balance_view(
                *m,
            )[g].contains_key(#[trigger] r@[i].0) && balance_view(*m)[g][r@[i].0] == r@[i].1,
        forall|u: u64|
            balance_view(*m).contains_key(g) && balance_view(*m)[g].contains_key(u) ==> exists|
                i: int,
            | 0 <= i < r@.len() && #[trigger] r@[i].0 == u,
{
    match m.get(&g) {
        Some(gm) => gm.iter().map(|e| (*e.key(), *e.value())).collect(),
        None => Vec::new(),
    }
}

/// Relies on `dashmap::DashMap::get` and `dashmap::DashMap::clear` on the
/// inner map: empties the guild's inner map but keeps its key; does nothing
/// for an absent guild.
#[verifier::external_body]
pub(crate) fn balance_clear_guild(m: &mut dashmap::DashMap<u64, dashmap::DashMap<u64, u32>>, g: u64)
    ensures
        balance_view(*final(m)) == (if balance_view(*old(m)).contains_key(g) {
            balance_view(*old(m)).insert(g, Map::<u64, u32>::empty())
        } else {
            balance_view(*old(m))
        }),
{
    if let Some(gm) = m.get(&g) {
        gm.clear();
    }
}

/// Relies on `dashmap::DashMap::clear`: removes every entry.
#[verifier::external_body]
pub(crate) fn balance_clear_all(m: &mut dashmap::DashMap<u64, dashmap::DashMap<u64, u32>>)
    ensures
        balance_view(*final(m)) == (Map::<u64, Map<u64, u32>>::empty()),
{
    m.clear();
}

/// Relies on `dashmap::DashMap::new`: a freshly created map is empty.
#[verifier::external_body]
pub(crate) fn new_config_table() -> (m: dashmap::DashMap<u64, GuildConfig>)
    ensures
        config_view(m) == (Map::<u64, GuildConfig>::empty()),
{
    dashmap::DashMap::new()
}

/// Relies on `dashmap::DashMap::get`: returns a copy of the entry stored
/// under the key, or nothing when the key is absent.
#[verifier::external_body]
pub(crate) fn config_read(m: &dashmap::DashMap<u64, GuildConfig>, g: u64) -> (r: Option<
    GuildConfig,
>)
    ensures
        r == (if config_view(*m).contains_key(g) {
            Some(config_view(*m)[g])
        } else {
            None::<GuildConfig>
        }),
{
    m.get(&g).map(|c| c.clone())
}

/// Relies on `dashmap::DashMap::insert`: stores `c` under `g`, replacing any
/// previous entry and touching no other.
#[verifier::external_body]
pub(crate) fn config_write(m: &mut dashmap::DashMap<u64, GuildConfig>, g: u64, c: GuildConfig)
    ensures
        config_view(*final(m)) == config_view(*old(m)).insert(g, c),
{
    m.insert(g, c);
}

/// Relies on `dashmap::DashMap::iter`: yields each guild key exactly once, in
/// an unspecified order.
#[verifier::external_body]
pub(crate) fn config_ids(m: &dashmap::DashMap<u64, GuildConfig>) -> (r: Vec<u64>)
    ensures
        r@.no_duplicates(),
        forall|i: int| 0 <= i < r@.len() ==> config_view(*m).contains_key(#[trigger] r@[i]),
        forall|g: u64| config_view(*m).contains_key(g) ==> r@.contains(g),
{
    m.iter().map(|e| *e.key()).collect()
}

/// Relies on `dashmap::DashMap::clear`: removes every entry.
#[verifier::external_body]
pub(crate) fn config_clear(m: &mut dashmap::DashMap<u64, GuildConfig>)
    ensures
        config_view(*final(m)) == (Map::<u64, GuildConfig>::empty()),
{
    m.clear();
}

} // verus!
