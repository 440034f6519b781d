//! The central store: per-guild balances and per-guild configuration, with
//! the vote state machine that can reset a guild's balances.

use vstd::prelude::*;

use rand::RngExt;

use crate::clock::current_time_seconds;
use crate::snapshot::{
    bal_keys, config_keys, describes_balances, describes_configs, import_balances, import_configs,
    pair_in,
};
use crate::tables::{
    balance_clear_all, balance_clear_guild, balance_guild_entries, balance_guild_ids, balance_read,
    balance_upsert, balance_view, balance_write, config_clear, config_ids, config_read,
    config_view, config_write, guild_balance_in, new_balance_table, new_config_table,
};
use crate::sort::{keys_of, sorted_desc, top_n_of};
use crate::sum::{lemma_sum_insert, sum_over_set};
use crate::types::{
    is_default_status, status_wf, GuildConfig, UserBalance, VoteConfig, VoteError, VoteStatus,
};
use crate::vote::{
    cast_applied, contains_u64, duration_seconds, evaluate_votes, in_cooldown, keep_other,
    lemma_cast_preserves_wf, lemma_filter_push, lemma_push_membership, lemma_push_no_duplicates,
    sat_add_u64, started_status, vote_counts_pass,
};

verus! {

/// `a + b`, clamped at the `u32` ceiling.
pub open spec fn sat_add_u32(a: u32, b: u32) -> u32 {
    if a + b > u32::MAX {
        u32::MAX
    } else {
        (a + b) as u32
    }
}

/// `a - b`, floored at zero: a debit never drives a balance negative.
pub open spec fn sub_floor_u32(a: u32, b: u32) -> u32 {
    if a >= b {
        (a - b) as u32
    } else {
        0
    }
}

/// `n` clamped at the `u32` ceiling.
pub open spec fn clamp_u32(n: nat) -> u32 {
    if n > u32::MAX {
        u32::MAX
    } else {
        n as u32
    }
}

/// `n` clamped at the `u64` ceiling.
pub open spec fn clamp_u64(n: nat) -> u64 {
    if n > u64::MAX {
        u64::MAX
    } else {
        n as u64
    }
}

/// The summand of the total-balance sum: the user's balance in one guild.
pub open spec fn guild_balance_fn(b: Map<u64, Map<u64, u32>>, u: u64) -> spec_fn(u64) -> nat {
    |g: u64| guild_balance_in(b, g, u) as nat
}

/// A user's balance summed over every guild that has an entry; guilds
/// without one contribute zero.
pub open spec fn user_total(b: Map<u64, Map<u64, u32>>, u: u64) -> nat {
    sum_over_set(b.dom(), guild_balance_fn(b, u))
}

/// The users that hold an entry in any guild.
pub open spec fn users_of(b: Map<u64, Map<u64, u32>>) -> Set<u64> {
    Set::new(
        |u: u64| exists|g: u64| #[trigger] b.contains_key(g) && b[g].contains_key(u),
    )
}

/// Neither table changed.
pub open spec fn store_unchanged(pre: DataInner, post: DataInner) -> bool {
    &&& post.balances() == pre.balances()
    &&& post.configs() == pre.configs()
}

/// The guild's vote ran out before `now`: still marked active, but past its
/// end time.
pub open spec fn vote_expired(s: VoteStatus, now: u64) -> bool {
    &&& s.active
    &&& s.end_time.is_some()
    &&& now > s.end_time.unwrap()
}

/// The store after the guild's vote ends at `now`: the vote goes inactive
/// with the cooldown mark set and the ballots kept, and on a pass the
/// guild's balances are emptied (the guild key itself stays).
pub open spec fn ended_state(pre: DataInner, post: DataInner, g: u64, now: u64) -> bool {
    let e = pre.configs()[g];
    let passed = vote_counts_pass(e.vote_status, e.vote_config);
    &&& post.configs() == pre.configs().insert(
        g,
        (GuildConfig {
            vote_status: (VoteStatus { active: false, last_vote_time: Some(now), ..e.vote_status }),
            ..e
        }),
    )
    &&& post.balances() == (if passed && pre.balances().contains_key(g) {
        pre.balances().insert(g, Map::<u64, u32>::empty())
    } else {
        pre.balances()
    })
}

/// The full effect of ending a vote: with an active vote the store moves to
/// the ended state and the outcome is returned; otherwise nothing changes
/// and the call fails.
pub open spec fn end_vote_post(
    pre: DataInner,
    post: DataInner,
    g: u64,
    now: u64,
    r: Result<bool, VoteError>,
) -> bool {
    if pre.configs().contains_key(g) && pre.configs()[g].vote_status.active {
        &&& ended_state(pre, post, g, now)
        &&& r == Ok::<bool, VoteError>(
            vote_counts_pass(pre.configs()[g].vote_status, pre.configs()[g].vote_config),
        )
    } else {
        &&& store_unchanged(pre, post)
        &&& r == Err::<bool, VoteError>(VoteError::NoActiveVote)
    }
}

/// The full effect of starting a vote: an active vote or a running cooldown
/// rejects it and changes nothing; otherwise the guild's entry (created with
/// defaults when absent) gets a freshly started status and the end time is
/// returned.
pub open spec fn start_vote_post(
    pre: DataInner,
    post: DataInner,
    g: u64,
    initiator: u64,
    now: u64,
    r: Result<u64, VoteError>,
) -> bool {
    let had = pre.configs().contains_key(g);
    let cfg = pre.spec_vote_config(g);
    if had && pre.configs()[g].vote_status.active {
        &&& store_unchanged(pre, post)
        &&& r == Err::<u64, VoteError>(VoteError::VoteAlreadyActive)
    } else if had && in_cooldown(pre.configs()[g].vote_status, cfg, now) {
        &&& store_unchanged(pre, post)
        &&& r == Err::<u64, VoteError>(VoteError::CooldownInEffect)
    } else {
        &&& r == Ok::<u64, VoteError>(sat_add_u64(now, duration_seconds(cfg)))
        &&& post.balances() == pre.balances()
        &&& post.configs().contains_key(g)
        &&& post.configs() == pre.configs().insert(g, post.configs()[g])
        &&& post.configs()[g].guild_id == g
        &&& post.configs()[g].giver_role_id == (if had {
            pre.configs()[g].giver_role_id
        } else {
            None::<u64>
        })
        &&& post.configs()[g].vote_config == cfg
        &&& started_status(post.configs()[g].vote_status, initiator, now, cfg)
    }
}

/// The full effect of casting a ballot: no entry or no active vote rejects
/// it; an expired vote is ended first and the cast rejected; otherwise the
/// ballot lists are rewritten and everything else stays.
pub open spec fn cast_vote_post(
    pre: DataInner,
    post: DataInner,
    g: u64,
    u: u64,
    vote_yes: bool,
    now: u64,
    r: Result<(), VoteError>,
) -> bool {
    let had = pre.configs().contains_key(g);
    if !had || !pre.configs()[g].vote_status.active {
        &&& store_unchanged(pre, post)
        &&& r == Err::<(), VoteError>(VoteError::NoActiveVote)
    } else if vote_expired(pre.configs()[g].vote_status, now) {
        &&& ended_state(pre, post, g, now)
        &&& r == Err::<(), VoteError>(VoteError::VoteEnded)
    } else {
        &&& r == Ok::<(), VoteError>(())
        &&& post.balances() == pre.balances()
        &&& post.configs().contains_key(g)
        &&& post.configs() == pre.configs().insert(g, post.configs()[g])
        &&& post.configs()[g].guild_id == g
        &&& post.configs()[g].giver_role_id == pre.configs()[g].giver_role_id
        &&& post.configs()[g].vote_config == pre.configs()[g].vote_config
        &&& cast_applied(pre.configs()[g].vote_status, post.configs()[g].vote_status, u, vote_yes)
    }
}

/// The full effect of an expiry check: an expired vote is ended and its
/// outcome reported; anything else changes nothing and reports nothing.
pub open spec fn check_expiry_post(
    pre: DataInner,
    post: DataInner,
    g: u64,
    now: u64,
    r: Option<bool>,
) -> bool {
    if pre.configs().contains_key(g) && vote_expired(pre.configs()[g].vote_status, now) {
        &&& ended_state(pre, post, g, now)
        &&& r == Some(
            vote_counts_pass(pre.configs()[g].vote_status, pre.configs()[g].vote_config),
        )
    } else {
        &&& store_unchanged(pre, post)
        &&& r == None::<bool>
    }
}

/// A guild whose vote had already run out at `now`.
pub open spec fn expired_guild(pre: DataInner, g: u64, now: u64) -> bool {
    pre.configs().contains_key(g) && vote_expired(pre.configs()[g].vote_status, now)
}

/// The guild's configuration entry and balances read the same in both stores.
pub open spec fn guild_unchanged(pre: DataInner, post: DataInner, g: u64) -> bool {
    &&& post.configs().contains_key(g) == pre.configs().contains_key(g)
    &&& (pre.configs().contains_key(g) ==> post.configs()[g] == pre.configs()[g])
    &&& post.balances().contains_key(g) == pre.balances().contains_key(g)
    &&& (pre.balances().contains_key(g) ==> post.balances()[g] == pre.balances()[g])
}

/// The guild's vote was ended at `now`: inactive with the cooldown mark set,
/// the ballots kept, and the guild's balances emptied when the vote passed.
pub open spec fn guild_vote_ended(pre: DataInner, post: DataInner, g: u64, now: u64) -> bool {
    let e = pre.configs()[g];
    let passed = vote_counts_pass(e.vote_status, e.vote_config);
    &&& post.configs().contains_key(g)
    &&& post.configs()[g] == (GuildConfig {
        vote_status: (VoteStatus { active: false, last_vote_time: Some(now), ..e.vote_status }),
        ..e
    })
    &&& post.balances().contains_key(g) == pre.balances().contains_key(g)
    &&& (pre.balances().contains_key(g) ==> post.balances()[g] == (if passed {
        Map::<u64, u32>::empty()
    } else {
        pre.balances()[g]
    }))
}

/// The full effect of the expiry sweep: every guild whose vote had run out is
/// ended at `now` and reported exactly once; every other guild is untouched.
pub open spec fn expire_votes_post(
    pre: DataInner,
    post: DataInner,
    now: u64,
    ended: Seq<u64>,
) -> bool {
    &&& ended.no_duplicates()
    &&& forall|i: int| 0 <= i < ended.len() ==> expired_guild(pre, #[trigger] ended[i], now)
    &&& forall|g: u64| #[trigger] expired_guild(pre, g, now) ==> ended.contains(g)
    &&& forall|g: u64| #[trigger] expired_guild(pre, g, now) ==> guild_vote_ended(pre, post, g, now)
    &&& forall|g: u64|
        !(#[trigger] expired_guild(pre, g, now)) ==> guild_unchanged(pre, post, g)
}

/// `r` ranks guild `g`'s users by balance: descending, each user once, each
/// pair a real entry, cut to `limit`, and nothing left out beats what is in.
pub open spec fn is_guild_top(b: Map<u64, Map<u64, u32>>, g: u64, limit: usize, r: Seq<(u64, u32)>) -> bool {
    &&& sorted_desc(r)
    &&& keys_of(r).no_duplicates()
    &&& r.len() == (if b.contains_key(g) {
        if (limit as int) <= b[g].dom().len() as int {
            limit as int
        } else {
            b[g].dom().len() as int
        }
    } else {
        0
    })
    &&& forall|i: int|
        0 <= i < r.len() ==> b.contains_key(g) && b[g].contains_key(#[trigger] r[i].0)
            && b[g][r[i].0] == r[i].1
    &&& forall|u: u64|
        b.contains_key(g) && b[g].contains_key(u) && !keys_of(r).contains(u) ==> r.len() == limit
            && (r.len() > 0 ==> b[g][u] <= r[r.len() - 1].1)
}

/// `r` ranks every user by clamped total balance: descending, each user
/// once, cut to `limit`, and nothing left out beats what is in.
pub open spec fn is_global_top(b: Map<u64, Map<u64, u32>>, limit: usize, r: Seq<(u64, u32)>) -> bool {
    &&& sorted_desc(r)
    &&& keys_of(r).no_duplicates()
    &&& r.len() == (if (limit as int) <= users_of(b).len() as int {
        limit as int
    } else {
        users_of(b).len() as int
    })
    &&& forall|i: int|
        0 <= i < r.len() ==> users_of(b).contains(#[trigger] r[i].0) && r[i].1 == clamp_u32(
            user_total(b, r[i].0),
        )
    &&& forall|u: u64|
        users_of(b).contains(u) && !keys_of(r).contains(u) ==> r.len() == limit && (r.len() > 0
            ==> clamp_u32(user_total(b, u)) <= r[r.len() - 1].1)
}

/// One requested balance change: `true` credits the amount, `false` debits
/// it.
pub open spec fn apply_op(bal: u32, credit: bool, amount: u32) -> u32 {
    if credit {
        sat_add_u32(bal, amount)
    } else {
        sub_floor_u32(bal, amount)
    }
}

/// The balance a run of credits and debits leaves, starting from `bal`:
/// each step clamps at zero and at the `u32` ceiling, exactly as
/// `add_coins` and `remove_coins` do.
pub open spec fn apply_ops(bal: u32, ops: Seq<(bool, u32)>) -> u32
    decreases ops.len(),
{
    if ops.len() == 0 {
        bal
    } else {
        apply_ops(apply_op(bal, ops[0].0, ops[0].1), ops.drop_first())
    }
}

/// The plain signed sum of the requested deltas, with no clamping.
pub open spec fn signed_sum(bal: int, ops: Seq<(bool, u32)>) -> int
    decreases ops.len(),
{
    if ops.len() == 0 {
        bal
    } else {
        signed_sum(
            bal + (if ops[0].0 {
                ops[0].1 as int
            } else {
                -(ops[0].1 as int)
            }),
            ops.drop_first(),
        )
    }
}

/// A run of credits and debits whose running sum never leaves `[0, u32::MAX]`
/// lands exactly on the signed sum of its deltas: the clamping in
/// `add_coins` and `remove_coins` bites only at the bounds. (A run that hits
/// a bound keeps the clamped value, not the sum: debiting below zero floors
/// there, and later credits build on the floor.)
pub proof fn lemma_ops_signed_sum(bal: u32, ops: Seq<(bool, u32)>)
    requires
        forall|k: int| 0 <= k <= ops.len() ==> 0 <= #[trigger] signed_sum(bal as int, ops.take(k))
            <= u32::MAX,
    ensures
        apply_ops(bal, ops) == signed_sum(bal as int, ops),
    decreases ops.len(),
{
    reveal_with_fuel(signed_sum, 3);
    if ops.len() > 0 {
        let d: int = if ops[0].0 {
            ops[0].1 as int
        } else {
            -(ops[0].1 as int)
        };
        assert(ops.take(0) =~= Seq::<(bool, u32)>::empty());
        assert(signed_sum(bal as int, ops.take(0)) == bal as int);
        assert(ops.take(1) =~= Seq::<(bool, u32)>::empty().push(ops[0]));
        assert(signed_sum(bal as int, ops.take(1)) == bal + d) by {
            assert(ops.take(1)[0] == ops[0]);
            assert(ops.take(1).drop_first() =~= Seq::<(bool, u32)>::empty());
        }
        let b1 = apply_op(bal, ops[0].0, ops[0].1);
        assert(b1 as int == bal + d);
        let rest = ops.drop_first();
        assert forall|k: int| 0 <= k <= rest.len() implies 0 <= #[trigger] signed_sum(
            b1 as int,
            rest.take(k),
        ) <= u32::MAX by {
            assert(ops.take(k + 1)[0] == ops[0]);
            assert(ops.take(k + 1).drop_first() =~= rest.take(k));
            assert(signed_sum(bal as int, ops.take(k + 1)) == signed_sum(b1 as int, rest.take(k)));
        }
        lemma_ops_signed_sum(b1, rest);
    }
}

/// The store of one process: every guild's balances and configuration.
pub struct DataInner {
    guild_balances: dashmap::DashMap<u64, dashmap::DashMap<u64, u32>>,
    guild_configs: dashmap::DashMap<u64, GuildConfig>,
}

/// The handle the rest of the program shares: one `DataInner` for the
/// process lifetime, reachable through the public field. The snapshot
/// operations are mirrored here for convenience.
pub struct Data(pub DataInner);

impl DataInner {
    /// The balances held: guild id -> (user id -> balance).
    pub closed spec fn balances(&self) -> Map<u64, Map<u64, u32>> {
        balance_view(self.guild_balances)
    }

    /// The configuration entries held: guild id -> configuration.
    pub closed spec fn configs(&self) -> Map<u64, GuildConfig> {
        config_view(self.guild_configs)
    }

    /// The balance of `u` in `g`, zero when absent.
    pub open spec fn spec_guild_balance(&self, g: u64, u: u64) -> u32 {
        guild_balance_in(self.balances(), g, u)
    }

    /// The vote configuration of `g`, defaulted when the guild has no entry.
    pub open spec fn spec_vote_config(&self, g: u64) -> VoteConfig {
        if self.configs().contains_key(g) {
            self.configs()[g].vote_config
        } else {
            VoteConfig::default_spec()
        }
    }

    /// Every reachable store satisfies this: both tables are finite, every
    /// guild's ballot lists are well formed, and every configuration entry
    /// records its own guild id.
    pub open spec fn wf(&self) -> bool {
        &&& self.balances().dom().finite()
        &&& forall|g: u64|
            #[trigger] self.balances().contains_key(g) ==> self.balances()[g].dom().finite()
        &&& self.configs().dom().finite()
        &&& forall|g: u64|
            #[trigger] self.configs().contains_key(g) ==> status_wf(self.configs()[g].vote_status)
                && self.configs()[g].guild_id == g
    }

    /// Create an empty store.
    pub fn new() -> (r: Self)
        ensures
            r.wf(),
            r.balances() == (Map::<u64, Map<u64, u32>>::empty()),
            r.configs() == (Map::<u64, GuildConfig>::empty()),
    {
        DataInner { guild_balances: new_balance_table(), guild_configs: new_config_table() }
    }

    /// A user's balance in one guild; zero when the guild or user is unknown.
    pub fn get_guild_balance(&self, guild_id: u64, user_id: u64) -> (r: u32)
        ensures
            r == self.spec_guild_balance(guild_id, user_id),
    {
        match balance_read(&self.guild_balances, guild_id, user_id) {
            Some(b) => b,
            None => 0,
        }
    }

    /// Credit `amount` to `(guild_id, user_id)`, creating entries as needed.
    /// The addition saturates at the `u32` ceiling; the new balance is
    /// returned. No other entry changes.
    pub fn add_coins(&mut self, guild_id: u64, user_id: u64, amount: u32) -> (r: u32)
        requires
            old(self).wf(),
        ensures
            final(self).wf(),
            r == sat_add_u32(old(self).spec_guild_balance(guild_id, user_id), amount),
            final(self).balances() == balance_upsert(
                old(self).balances(),
                guild_id,
                user_id,
                sat_add_u32(old(self).spec_guild_balance(guild_id, user_id), amount),
            ),
            final(self).configs() == old(self).configs(),
    {
        let prev = self.get_guild_balance(guild_id, user_id);
        let new_balance = if prev <= u32::MAX - amount {
            prev + amount
        } else {
            u32::MAX
        };
        balance_write(&mut self.guild_balances, guild_id, user_id, new_balance);
        new_balance
    }

    /// Debit `amount` from `(guild_id, user_id)`, flooring at zero: an
    /// over-spend clamps rather than fails, and an absent entry is created
    /// with balance zero. The new balance is returned. No other entry changes.
    pub fn remove_coins(&mut self, guild_id: u64, user_id: u64, amount: u32) -> (r: u32)
        requires
            old(self).wf(),
        ensures
            final(self).wf(),
            r == sub_floor_u32(old(self).spec_guild_balance(guild_id, user_id), amount),
            final(self).balances() == balance_upsert(
                old(self).balances(),
                guild_id,
                user_id,
                sub_floor_u32(old(self).spec_guild_balance(guild_id, user_id), amount),
            ),
            final(self).configs() == old(self).configs(),
    {
        let prev = self.get_guild_balance(guild_id, user_id);
        let new_balance = if prev >= amount {
            prev - amount
        } else {
            0
        };
        balance_write(&mut self.guild_balances, guild_id, user_id, new_balance);
        new_balance
    }

    /// Set or clear the role whose holders may give coins. Creates the
    /// guild's configuration entry when absent; otherwise only the role
    /// changes.
    pub fn set_giver_role(&mut self, guild_id: u64, role_id: Option<u64>)
        requires
            old(self).wf(),
        ensures
            final(self).wf(),
            old(self).configs().contains_key(guild_id) ==> final(self).configs() == old(self).configs().insert(
                guild_id,
                (GuildConfig { giver_role_id: role_id, ..old(self).configs()[guild_id] }),
            ),
            !old(self).configs().contains_key(guild_id) ==> final(self).configs() == old(self).configs().insert(guild_id, final(self).configs()[guild_id]) && final(self).configs()[guild_id].guild_id == guild_id && final(self).configs()[guild_id].giver_role_id == role_id && final(self).configs()[guild_id].vote_config == VoteConfig::default_spec() && is_default_status(
                final(self).configs()[guild_id].vote_status,
            ),
            final(self).balances() == old(self).balances(),
    {
        let entry = match config_read(&self.guild_configs, guild_id) {
            Some(c) => GuildConfig {
                guild_id: c.guild_id,
                giver_role_id: role_id,
                vote_config: c.vote_config,
                vote_status: c.vote_status,
            },
            None => GuildConfig {
                guild_id,
                giver_role_id: role_id,
                vote_config: VoteConfig::default(),
                vote_status: VoteStatus::default(),
            },
        };
        config_write(&mut self.guild_configs, guild_id, entry);
    }

    /// The giver role of a guild, if one is set.
    pub fn get_giver_role(&self, guild_id: u64) -> (r: Option<u64>)
        ensures
            r == (if self.configs().contains_key(guild_id) {
                self.configs()[guild_id].giver_role_id
            } else {
                None::<u64>
            }),
    {
        match config_read(&self.guild_configs, guild_id) {
            Some(c) => c.giver_role_id,
            None => None,
        }
    }

    /// Whether a user may give coins: the guild owner always may; anyone else
    /// only holds the permission through the configured giver role. The
    /// owner check and the caller's role list come from the host platform.
    pub fn has_giver_role(&self, guild_id: u64, is_guild_owner: bool, user_roles: &Vec<u64>) -> (r:
        bool)
        ensures
            r == (is_guild_owner || (match (if self.configs().contains_key(guild_id) {
                self.configs()[guild_id].giver_role_id
            } else {
                None::<u64>
            }) {
                Some(rid) => user_roles@.contains(rid),
                None => false,
            })),
    {
        if is_guild_owner {
            return true;
        }
        match self.get_giver_role(guild_id) {
            Some(rid) => contains_u64(user_roles, rid),
            None => false,
        }
    }

    /// The vote configuration of a guild, defaulted when the guild has no
    /// entry; reading never creates one.
    pub fn get_vote_config(&self, guild_id: u64) -> (r: VoteConfig)
        ensures
            r == self.spec_vote_config(guild_id),
    {
        match config_read(&self.guild_configs, guild_id) {
            Some(c) => c.vote_config,
            None => VoteConfig::default(),
        }
    }

    /// Replace the vote configuration of a guild. Creates the guild's entry
    /// when absent; otherwise the giver role and vote status are kept.
    pub fn set_vote_config(&mut self, guild_id: u64, vote_config: &VoteConfig)
        requires
            old(self).wf(),
        ensures
            final(self).wf(),
            old(self).configs().contains_key(guild_id) ==> final(self).configs() == old(self).configs().insert(
                guild_id,
                (GuildConfig { vote_config: *vote_config, ..old(self).configs()[guild_id] }),
            ),
            !old(self).configs().contains_key(guild_id) ==> final(self).configs() == old(self).configs().insert(guild_id, final(self).configs()[guild_id]) && final(self).configs()[guild_id].guild_id == guild_id && final(self).configs()[guild_id].giver_role_id.is_none() && final(self).configs()[guild_id].vote_config == *vote_config && is_default_status(
                final(self).configs()[guild_id].vote_status,
            ),
            final(self).balances() == old(self).balances(),
    {
        let entry = match config_read(&self.guild_configs, guild_id) {
            Some(c) => GuildConfig {
                guild_id: c.guild_id,
                giver_role_id: c.giver_role_id,
                vote_config: *vote_config,
                vote_status: c.vote_status,
            },
            None => GuildConfig {
                guild_id,
                giver_role_id: None,
                vote_config: *vote_config,
                vote_status: VoteStatus::default(),
            },
        };
        config_write(&mut self.guild_configs, guild_id, entry);
    }

    /// The vote status of a guild; a guild without an entry reports the
    /// never-voted status. Reading never creates an entry.
    pub fn get_vote_status(&self, guild_id: u64) -> (r: VoteStatus)
        ensures
            self.configs().contains_key(guild_id) ==> r == self.configs()[guild_id].vote_status,
            !self.configs().contains_key(guild_id) ==> is_default_status(r),
    {
        match config_read(&self.guild_configs, guild_id) {
            Some(c) => c.vote_status,
            None => VoteStatus::default(),
        }
    }

    /// Every guild id with a configuration entry, each exactly once, in an
    /// unspecified order.
    pub fn get_guild_ids(&self) -> (r: Vec<u64>)
        ensures
            r@.no_duplicates(),
            forall|i: int| 0 <= i < r@.len() ==> self.configs().contains_key(#[trigger] r@[i]),
            forall|g: u64| self.configs().contains_key(g) ==> r@.contains(g),
    {
        config_ids(&self.guild_configs)
    }

    /// Drop every balance and every configuration entry.
    pub fn reset(&mut self)
        ensures
            final(self).wf(),
            final(self).balances() == (Map::<u64, Map<u64, u32>>::empty()),
            final(self).configs() == (Map::<u64, GuildConfig>::empty()),
    {
        balance_clear_all(&mut self.guild_balances);
        config_clear(&mut self.guild_configs);
    }

    /// End the guild's vote at time `now`. Fails when no vote is active.
    /// Whatever the outcome, the vote goes inactive and the cooldown starts;
    /// a pass additionally resets every balance in the guild to zero.
    pub fn end_vote_at(&mut self, guild_id: u64, now: u64) -> (r: Result<bool, VoteError>)
        requires
            old(self).wf(),
        ensures
            final(self).wf(),
            end_vote_post(*old(self), *final(self), guild_id, now, r),
    {
        let entry = match config_read(&self.guild_configs, guild_id) {
            Some(c) => c,
            None => {
                return Err(VoteError::NoActiveVote);
            },
        };
        if !entry.vote_status.active {
            return Err(VoteError::NoActiveVote);
        }
        let yes_count = entry.vote_status.yes_votes.len();
        let no_count = entry.vote_status.no_votes.len();
        let passed = evaluate_votes(yes_count, no_count, &entry.vote_config);
        let new_entry = GuildConfig {
            guild_id: entry.guild_id,
            giver_role_id: entry.giver_role_id,
            vote_config: entry.vote_config,
            vote_status: VoteStatus {
                active: false,
                start_time: entry.vote_status.start_time,
                end_time: entry.vote_status.end_time,
                initiator_id: entry.vote_status.initiator_id,
                yes_votes: entry.vote_status.yes_votes,
                no_votes: entry.vote_status.no_votes,
                last_vote_time: Some(now),
            },
        };
        config_write(&mut self.guild_configs, guild_id, new_entry);
        if passed {
            balance_clear_guild(&mut self.guild_balances, guild_id);
        }
        Ok(passed)
    }

    /// Start a vote at time `now`. Fails while a vote is active or the
    /// cooldown from the last one still runs; otherwise the initiator's
    /// automatic yes ballot opens the vote and its end time is returned.
    pub fn start_vote_at(&mut self, guild_id: u64, initiator_id: u64, now: u64) -> (r: Result<
        u64,
        VoteError,
    >)
        requires
            old(self).wf(),
        ensures
            final(self).wf(),
            start_vote_post(*old(self), *final(self), guild_id, initiator_id, now, r),
    {
        let entry = match config_read(&self.guild_configs, guild_id) {
            Some(c) => c,
            None => GuildConfig {
                guild_id,
                giver_role_id: None,
                vote_config: VoteConfig::default(),
                vote_status: VoteStatus::default(),
            },
        };
        if entry.vote_status.active {
            return Err(VoteError::VoteAlreadyActive);
        }
        if let Some(last) = entry.vote_status.last_vote_time {
            let cooldown: u64 = (entry.vote_config.cooldown_hours as u64) * 3600;
            if now < sat_add64(last, cooldown) {
                return Err(VoteError::CooldownInEffect);
            }
        }
        let duration: u64 = (entry.vote_config.duration_minutes as u64) * 60;
        let end_time = sat_add64(now, duration);
        let mut yes_votes: Vec<u64> = Vec::new();
        yes_votes.push(initiator_id);
        let new_entry = GuildConfig {
            guild_id: entry.guild_id,
            giver_role_id: entry.giver_role_id,
            vote_config: entry.vote_config,
            vote_status: VoteStatus {
                active: true,
                start_time: Some(now),
                end_time: Some(end_time),
                initiator_id: Some(initiator_id),
                yes_votes,
                no_votes: Vec::new(),
                last_vote_time: None,
            },
        };
        config_write(&mut self.guild_configs, guild_id, new_entry);
        Ok(end_time)
    }

    /// Cast or change a ballot at time `now`. Fails when no vote is active;
    /// an expired vote is ended on the spot and the cast rejected. Re-voting
    /// moves the user's single ballot between the lists.
    pub fn cast_vote_at(&mut self, guild_id: u64, user_id: u64, vote_yes: bool, now: u64) -> (r:
        Result<(), VoteError>)
        requires
            old(self).wf(),
        ensures
            final(self).wf(),
            cast_vote_post(*old(self), *final(self), guild_id, user_id, vote_yes, now, r),
    {
        let entry = match config_read(&self.guild_configs, guild_id) {
            Some(c) => c,
            None => {
                return Err(VoteError::NoActiveVote);
            },
        };
        if !entry.vote_status.active {
            return Err(VoteError::NoActiveVote);
        }
        if let Some(end_time) = entry.vote_status.end_time {
            if now > end_time {
                let _ = self.end_vote_at(guild_id, now);
                return Err(VoteError::VoteEnded);
            }
        }
        let mut yes_votes = remove_user(&entry.vote_status.yes_votes, user_id);
        let mut no_votes = remove_user(&entry.vote_status.no_votes, user_id);
        if vote_yes {
            yes_votes.push(user_id);
        } else {
            no_votes.push(user_id);
        }
        let new_entry = GuildConfig {
            guild_id: entry.guild_id,
            giver_role_id: entry.giver_role_id,
            vote_config: entry.vote_config,
            vote_status: VoteStatus {
                active: entry.vote_status.active,
                start_time: entry.vote_status.start_time,
                end_time: entry.vote_status.end_time,
                initiator_id: entry.vote_status.initiator_id,
                yes_votes,
                no_votes,
                last_vote_time: entry.vote_status.last_vote_time,
            },
        };
        proof {
            lemma_cast_preserves_wf(
                old(self).configs()[guild_id].vote_status,
                new_entry.vote_status,
                user_id,
                vote_yes,
            );
        }
        config_write(&mut self.guild_configs, guild_id, new_entry);
        Ok(())
    }

    /// Resolve a possibly expired vote at time `now`: when the guild's vote
    /// has run out, end it and report the outcome; otherwise report nothing
    /// and change nothing. This is the lazy expiry path; there is no timer.
    pub fn check_vote_expiry_at(&mut self, guild_id: u64, now: u64) -> (r: Option<bool>)
        requires
            old(self).wf(),
        ensures
            final(self).wf(),
            check_expiry_post(*old(self), *final(self), guild_id, now, r),
    {
        let entry = match config_read(&self.guild_configs, guild_id) {
            Some(c) => c,
            None => {
                return None;
            },
        };
        if !entry.vote_status.active {
            return None;
        }
        if let Some(end_time) = entry.vote_status.end_time {
            if now > end_time {
                return match self.end_vote_at(guild_id, now) {
                    Ok(outcome) => Some(outcome),
                    Err(_) => None,
                };
            }
        }
        None
    }

    /// Sweep every guild and end the votes that have run out by `now`,
    /// returning those guilds. There is no timer thread: callers invoke this
    /// (or the per-guild expiry check) to resolve timed-out votes.
    pub fn expire_votes_at(&mut self, now: u64) -> (r: Vec<u64>)
        requires
            old(self).wf(),
        ensures
            final(self).wf(),
            expire_votes_post(*old(self), *final(self), now, r@),
    {
        let ghost orig = *self;
        let ids = config_ids(&self.guild_configs);
        let mut ended: Vec<u64> = Vec::new();
        let mut i: usize = 0;
        while i < ids.len()
            invariant
                self.wf(),
                0 <= i <= ids@.len(),
                ids@.no_duplicates(),
                forall|j: int|
                    0 <= j < ids@.len() ==> orig.configs().contains_key(#[trigger] ids@[j]),
                forall|g: u64| orig.configs().contains_key(g) ==> ids@.contains(g),
                ended@.no_duplicates(),
                forall|j: int|
                    0 <= j < ended@.len() ==> expired_guild(orig, #[trigger] ended@[j], now)
                        && ids@.take(i as int).contains(ended@[j]),
                forall|j: int|
                    0 <= j < i && expired_guild(orig, ids@[j], now) ==> ended@.contains(
                        #[trigger] ids@[j],
                    ),
                forall|g: u64|
                    expired_guild(orig, g, now) && ids@.take(i as int).contains(g)
                        ==> #[trigger] guild_vote_ended(orig, *self, g, now),
                forall|g: u64|
                    !(expired_guild(orig, g, now) && ids@.take(i as int).contains(g))
                        ==> #[trigger] guild_unchanged(orig, *self, g),
            decreases ids@.len() - i,
        {
            let g = ids[i];
            proof {
                assert(!ids@.take(i as int).contains(g)) by {
                    if ids@.take(i as int).contains(g) {
                        let k = choose|k: int|
                            0 <= k < i && ids@.take(i as int)[k] == g;
                        assert(ids@[k] == ids@[i as int]);
                    }
                }
                assert(!(expired_guild(orig, g, now) && ids@.take(i as int).contains(g)));
                assert(guild_unchanged(orig, *self, g));
            }
            let ghost mid = *self;
            let ghost ended0 = ended@;
            let expired_now = match config_read(&self.guild_configs, g) {
                Some(e) => e.vote_status.active && match e.vote_status.end_time {
                    Some(t) => now > t,
                    None => false,
                },
                None => false,
            };
            proof {
                assert(expired_now == expired_guild(orig, g, now));
            }
            if expired_now {
                let _ = self.end_vote_at(g, now);
                proof {
                    assert(ended_state(mid, *self, g, now));
                    assert(guild_vote_ended(orig, *self, g, now)) by {
                        assert(mid.configs()[g] == orig.configs()[g]);
                    }
                    assert(!ended0.contains(g));
                    lemma_push_no_duplicates(ended0, g);
                }
                ended.push(g);
            }
            i = i + 1;
            proof {
                assert(ids@.take(i as int) =~= ids@.take(i - 1).push(g));
                // For every other guild, this iteration changed nothing.
                assert forall|h: u64| h != g implies (self.configs().contains_key(h)
                    == mid.configs().contains_key(h) && (mid.configs().contains_key(h)
                    ==> self.configs()[h] == mid.configs()[h]) && self.balances().contains_key(h)
                    == mid.balances().contains_key(h) && (mid.balances().contains_key(h)
                    ==> self.balances()[h] == mid.balances()[h])) by {
                    if expired_now {
                        assert(ended_state(mid, *self, g, now));
                    } else {
                        assert(*self == mid);
                    }
                }
                assert forall|h: u64| #[trigger] expired_guild(orig, h, now) && ids@.take(
                    i as int,
                ).contains(h) implies guild_vote_ended(orig, *self, h, now) by {
                    lemma_push_membership(ids@.take(i - 1), g, h);
                    if h == g {
                        assert(guild_vote_ended(orig, *self, g, now));
                    } else {
                        assert(ids@.take(i - 1).contains(h));
                        assert(guild_vote_ended(orig, mid, h, now));
                    }
                }
                assert forall|h: u64| !(#[trigger] expired_guild(orig, h, now)
                    && ids@.take(i as int).contains(h)) implies guild_unchanged(
                    orig,
                    *self,
                    h,
                ) by {
                    lemma_push_membership(ids@.take(i - 1), g, h);
                    if h == g {
                        assert(!expired_now);
                        assert(*self == mid);
                        assert(guild_unchanged(orig, mid, g));
                    } else {
                        assert(!(expired_guild(orig, h, now) && ids@.take(i - 1).contains(
                            h,
                        )));
                        assert(guild_unchanged(orig, mid, h));
                    }
                }
                assert forall|j: int| 0 <= j < ended@.len() implies expired_guild(
                    orig,
                    #[trigger] ended@[j],
                    now,
                ) && ids@.take(i as int).contains(ended@[j]) by {
                    if expired_now && j == ended@.len() - 1 {
                        assert(ended@[j] == g);
                        lemma_push_membership(ids@.take(i - 1), g, g);
                    } else {
                        assert(ended@[j] == ended0[j]);
                        assert(ids@.take(i - 1).contains(ended0[j]));
                        lemma_push_membership(ids@.take(i - 1), g, ended0[j]);
                    }
                }
                assert forall|j: int| 0 <= j < i && expired_guild(orig, ids@[j], now)
                    implies ended@.contains(#[trigger] ids@[j]) by {
                    if j < i - 1 {
                        assert(ended0.contains(ids@[j]));
                        if expired_now {
                            assert(ended@ == ended0.push(g));
                            lemma_push_membership(ended0, g, ids@[j]);
                        }
                    } else {
                        assert(ids@[j] == g);
                        if expired_now {
                            lemma_push_membership(ended0, g, g);
                        }
                    }
                }
            }
        }
        proof {
            assert(ids@.take(ids@.len() as int) =~= ids@);
            assert forall|g: u64| #[trigger] expired_guild(orig, g, now)
                implies ended@.contains(g) by {
                assert(orig.configs().contains_key(g));
                assert(ids@.contains(g));
                let j = choose|j: int| 0 <= j < ids@.len() && ids@[j] == g;
                assert(expired_guild(orig, ids@[j], now));
            }
            assert forall|g: u64| #[trigger] expired_guild(orig, g, now)
                implies guild_vote_ended(orig, *self, g, now) by {
                assert(ids@.contains(g));
            }
        }
        ended
    }

    /// Start a vote against the wall clock; `start_vote_at` states the exact
    /// transition for the time the clock supplied.
    pub fn start_vote(&mut self, guild_id: u64, initiator_id: u64) -> (r: Result<u64, VoteError>)
        requires
            old(self).wf(),
        ensures
            final(self).wf(),
            exists|now: u64|
                start_vote_post(*old(self), *final(self), guild_id, initiator_id, now, r),
    {
        let now = current_time_seconds();
        let r = self.start_vote_at(guild_id, initiator_id, now);
        proof {
            assert(start_vote_post(*old(self), *self, guild_id, initiator_id, now, r));
        }
        r
    }

    /// Cast a ballot against the wall clock; `cast_vote_at` states the exact
    /// transition for the time the clock supplied.
    pub fn cast_vote(&mut self, guild_id: u64, user_id: u64, vote_yes: bool) -> (r: Result<
        (),
        VoteError,
    >)
        requires
            old(self).wf(),
        ensures
            final(self).wf(),
            exists|now: u64|
                cast_vote_post(*old(self), *final(self), guild_id, user_id, vote_yes, now, r),
    {
        let now = current_time_seconds();
        let r = self.cast_vote_at(guild_id, user_id, vote_yes, now);
        proof {
            assert(cast_vote_post(*old(self), *self, guild_id, user_id, vote_yes, now, r));
        }
        r
    }

    /// End a vote against the wall clock; `end_vote_at` states the exact
    /// transition for the time the clock supplied.
    pub fn end_vote(&mut self, guild_id: u64) -> (r: Result<bool, VoteError>)
        requires
            old(self).wf(),
        ensures
            final(self).wf(),
            exists|now: u64| end_vote_post(*old(self), *final(self), guild_id, now, r),
    {
        let now = current_time_seconds();
        let r = self.end_vote_at(guild_id, now);
        proof {
            assert(end_vote_post(*old(self), *self, guild_id, now, r));
        }
        r
    }

    /// Resolve a possibly expired vote against the wall clock;
    /// `check_vote_expiry_at` states the exact transition for the time the
    /// clock supplied.
    pub fn check_vote_expiry(&mut self, guild_id: u64) -> (r: Option<bool>)
        requires
            old(self).wf(),
        ensures
            final(self).wf(),
            exists|now: u64| check_expiry_post(*old(self), *final(self), guild_id, now, r),
    {
        let now = current_time_seconds();
        let r = self.check_vote_expiry_at(guild_id, now);
        proof {
            assert(check_expiry_post(*old(self), *self, guild_id, now, r));
        }
        r
    }

    /// Sweep expired votes against the wall clock; `expire_votes_at` states
    /// the exact transition for the time the clock supplied.
    pub fn expire_votes(&mut self) -> (r: Vec<u64>)
        requires
            old(self).wf(),
        ensures
            final(self).wf(),
            exists|now: u64| expire_votes_post(*old(self), *final(self), now, r@),
    {
        let now = current_time_seconds();
        let r = self.expire_votes_at(now);
        proof {
            assert(expire_votes_post(*old(self), *self, now, r@));
        }
        r
    }

    /// Relies on `rand::rng` and `Rng::random_ratio` with odds 1 in 2: a fair
    /// coin toss. Nothing can be promised of a random draw.
    #[verifier::external_body]
    pub fn flip_coin() -> bool {
        let mut rng = rand::rng();
        rng.random_ratio(1, 2)
    }

    /// A user's balance summed across every guild, clamped at the `u32`
    /// ceiling (which no reachable ledger approaches in practice).
    pub fn get_total_balance(&self, user_id: u64) -> (r: u32)
        requires
            self.wf(),
        ensures
            r == clamp_u32(user_total(self.balances(), user_id)),
    {
        let ids = balance_guild_ids(&self.guild_balances);
        let mut acc: u64 = 0;
        let mut i: usize = 0;
        while i < ids.len()
            invariant
                self.wf(),
                0 <= i <= ids@.len(),
                ids@.no_duplicates(),
                forall|j: int|
                    0 <= j < ids@.len() ==> self.balances().contains_key(#[trigger] ids@[j]),
                forall|g: u64| self.balances().contains_key(g) ==> ids@.contains(g),
                acc == clamp_u64(
                    sum_over_set(
                        ids@.take(i as int).to_set(),
                        guild_balance_fn(self.balances(), user_id),
                    ),
                ),
            decreases ids@.len() - i,
        {
            let b = self.get_guild_balance(ids[i], user_id);
            proof {
                broadcast use vstd::seq_lib::seq_to_set_is_finite;

                let f = guild_balance_fn(self.balances(), user_id);
                let s0 = ids@.take(i as int).to_set();
                assert(!s0.contains(ids@[i as int])) by {
                    if ids@.take(i as int).contains(ids@[i as int]) {
                        let k = choose|k: int|
                            0 <= k < i && ids@.take(i as int)[k] == ids@[i as int];
                        assert(ids@[k] == ids@[i as int]);
                    }
                }
                assert(ids@.take(i + 1) =~= ids@.take(i as int).push(ids@[i as int]));
                assert(ids@.take(i + 1).to_set() =~= s0.insert(ids@[i as int])) by {
                    assert forall|x: u64|
                        ids@.take(i + 1).contains(x) <==> (ids@.take(i as int).contains(x) || x
                            == ids@[i as int]) by {
                        lemma_push_membership(ids@.take(i as int), ids@[i as int], x);
                    }
                }
                lemma_sum_insert(s0, f, ids@[i as int]);
                assert(f(ids@[i as int]) == b as nat);
            }
            acc = sat_add64(acc, b as u64);
            i = i + 1;
        }
        proof {
            assert(ids@.take(ids@.len() as int) =~= ids@);
            assert(ids@.to_set() =~= self.balances().dom());
        }
        if acc > 0xFFFF_FFFFu64 {
            u32::MAX
        } else {
            acc as u32
        }
    }

    /// The guild's users ranked by balance, largest first, cut to `limit`.
    /// Each reported pair is a real entry, no user repeats, and every entry
    /// left out is no larger than the smallest reported balance. The order
    /// among equal balances is unspecified.
    pub fn get_guild_top_users(&self, guild_id: u64, limit: usize) -> (r: Vec<(u64, u32)>)
        requires
            self.wf(),
        ensures
            is_guild_top(self.balances(), guild_id, limit, r@),
    {
        let entries = balance_guild_entries(&self.guild_balances, guild_id);
        proof {
            broadcast use vstd::seq_lib::seq_to_set_is_finite;

            if self.balances().contains_key(guild_id) {
                let ks = keys_of(entries@);
                assert(ks.no_duplicates());
                assert forall|u: u64|
                    self.balances()[guild_id].contains_key(u) implies ks.contains(u) by {
                    let i = choose|i: int| 0 <= i < entries@.len() && entries@[i].0 == u;
                    assert(ks[i] == u);
                }
                assert forall|i: int| 0 <= i < ks.len() implies self.balances()[guild_id].contains_key(#[trigger] ks[i]) by {
                    assert(ks[i] == entries@[i].0);
                }
                assert(ks.to_set() =~= self.balances()[guild_id].dom()) by {
                    assert forall|u: u64| ks.to_set().contains(u) implies self.balances()[guild_id].contains_key(u) by {
                        let i = choose|i: int| 0 <= i < ks.len() && ks[i] == u;
                    }
                }
                ks.unique_seq_to_set();
                assert(entries@.len() == self.balances()[guild_id].dom().len());
            } else {
                assert(entries@.len() == 0) by {
                    if entries@.len() > 0 {
                        let p0 = entries@[0].0;
                        assert(self.balances().contains_key(guild_id));
                    }
                }
            }
        }
        let ghost es = entries@;
        let r = top_n_of(entries, limit);
        proof {
            assert forall|i: int|
                0 <= i < r@.len() implies self.balances().contains_key(guild_id)
                && self.balances()[guild_id].contains_key(#[trigger] r@[i].0) && self.balances()[guild_id][r@[i].0] == r@[i].1 by {
                assert(es.contains(r@[i]));
                let k = choose|k: int| 0 <= k < es.len() && es[k] == r@[i];
            }
            assert forall|u: u64|
                self.balances().contains_key(guild_id) && self.balances()[guild_id].contains_key(
                    u,
                ) && !keys_of(r@).contains(u) implies r@.len() == limit && (r@.len() > 0
                ==> self.balances()[guild_id][u] <= r@[r@.len() - 1].1) by {
                let i = choose|i: int| 0 <= i < es.len() && es[i].0 == u;
                assert(es[i].1 == self.balances()[guild_id][u]);
            }
        }
        r
    }

    /// Every user with an entry anywhere, ranked by total balance across all
    /// guilds, largest first, cut to `limit`. Each reported total is the
    /// user's clamped sum; no user repeats; every user left out totals no
    /// more than the smallest reported balance. The order among equal totals
    /// is unspecified.
    pub fn get_global_top_users(&self, limit: usize) -> (r: Vec<(u64, u32)>)
        requires
            self.wf(),
        ensures
            is_global_top(self.balances(), limit, r@),
    {
        let guild_ids = balance_guild_ids(&self.guild_balances);
        let mut users: Vec<u64> = Vec::new();
        let mut gi: usize = 0;
        while gi < guild_ids.len()
            invariant
                self.wf(),
                0 <= gi <= guild_ids@.len(),
                guild_ids@.no_duplicates(),
                forall|j: int|
                    0 <= j < guild_ids@.len() ==> self.balances().contains_key(
                        #[trigger] guild_ids@[j],
                    ),
                forall|g: u64| self.balances().contains_key(g) ==> guild_ids@.contains(g),
                users@.no_duplicates(),
                forall|j: int|
                    0 <= j < users@.len() ==> users_of(self.balances()).contains(
                        #[trigger] users@[j],
                    ),
                forall|k: int, u: u64|
                    0 <= k < gi && #[trigger] self.balances()[guild_ids@[k]].contains_key(u)
                        ==> users@.contains(u),
            decreases guild_ids@.len() - gi,
        {
            let g = guild_ids[gi];
            let es = balance_guild_entries(&self.guild_balances, g);
            let mut ei: usize = 0;
            while ei < es.len()
                invariant
                    self.wf(),
                    0 <= gi < guild_ids@.len(),
                    g == guild_ids@[gi as int],
                    self.balances().contains_key(g) ==> (forall|u: u64|
                        self.balances()[g].contains_key(u) ==> exists|i: int|
                            0 <= i < es@.len() && #[trigger] es@[i].0 == u),
                    forall|i: int|
                        0 <= i < es@.len() ==> self.balances().contains_key(g) && self.balances()[g].contains_key(#[trigger] es@[i].0),
                    0 <= ei <= es@.len(),
                    users@.no_duplicates(),
                    forall|j: int|
                        0 <= j < users@.len() ==> users_of(self.balances()).contains(
                            #[trigger] users@[j],
                        ),
                    forall|k: int, u: u64|
                        0 <= k < gi && #[trigger] self.balances()[guild_ids@[k]].contains_key(u)
                            ==> users@.contains(u),
                    forall|j: int| 0 <= j < ei ==> users@.contains(#[trigger] es@[j].0),
                decreases es@.len() - ei,
            {
                let u = es[ei].0;
                let ghost users0 = users@;
                if !contains_u64(&users, u) {
                    proof {
                        lemma_push_no_duplicates(users@, u);
                        assert(users_of(self.balances()).contains(u)) by {
                            assert(self.balances().contains_key(g) && self.balances()[g].contains_key(u));
                        }
                    }
                    users.push(u);
                    proof {
                        assert forall|j: int|
                            0 <= j < users@.len() implies users_of(self.balances()).contains(
                            #[trigger] users@[j],
                        ) by {
                            if j < users0.len() {
                                assert(users@[j] == users0[j]);
                            }
                        }
                        assert forall|k: int, w: u64|
                            0 <= k < gi && #[trigger] self.balances()[guild_ids@[k]].contains_key(
                                w,
                            ) implies users@.contains(w) by {
                            assert(users0.contains(w));
                            lemma_push_membership(users0, u, w);
                        }
                        assert forall|j: int| 0 <= j < ei + 1 implies users@.contains(
                            #[trigger] es@[j].0,
                        ) by {
                            if j < ei {
                                assert(users0.contains(es@[j].0));
                                lemma_push_membership(users0, u, es@[j].0);
                            } else {
                                lemma_push_membership(users0, u, u);
                            }
                        }
                    }
                }
                ei = ei + 1;
            }
            gi = gi + 1;
            proof {
                assert forall|k: int, u: u64|
                    0 <= k < gi && #[trigger] self.balances()[guild_ids@[k]].contains_key(u)
                        implies users@.contains(u) by {
                    if k == gi - 1 {
                        let i = choose|i: int| 0 <= i < es@.len() && #[trigger] es@[i].0 == u;
                    }
                }
            }
        }
        proof {
            broadcast use vstd::seq_lib::seq_to_set_is_finite;

            assert forall|u: u64| users_of(self.balances()).contains(u) implies users@.contains(
                u,
            ) by {
                let g = choose|g: u64|
                    #[trigger] self.balances().contains_key(g) && self.balances()[g].contains_key(u);
                assert(guild_ids@.contains(g));
                let k = choose|k: int| 0 <= k < guild_ids@.len() && guild_ids@[k] == g;
                assert(self.balances()[guild_ids@[k]].contains_key(u));
            }
            assert(users@.to_set() =~= users_of(self.balances())) by {
                assert forall|u: u64| users@.to_set().contains(u) implies users_of(
                    self.balances(),
                ).contains(u) by {
                    let j = choose|j: int| 0 <= j < users@.len() && users@[j] == u;
                }
            }
            users@.unique_seq_to_set();
            assert(users@.len() == users_of(self.balances()).len());
        }
        let ghost all_users = users@;
        let mut pairs: Vec<(u64, u32)> = Vec::new();
        let mut i: usize = 0;
        while i < users.len()
            invariant
                self.wf(),
                users@ == all_users,
                0 <= i <= users@.len(),
                pairs@.len() == i,
                forall|j: int|
                    0 <= j < i ==> (#[trigger] pairs@[j]) == (
                    users@[j],
                    clamp_u32(user_total(self.balances(), users@[j])),
                ),
            decreases users@.len() - i,
        {
            let t = self.get_total_balance(users[i]);
            pairs.push((users[i], t));
            i = i + 1;
        }
        proof {
            assert(keys_of(pairs@) =~= all_users) by {
                assert forall|j: int| 0 <= j < pairs@.len() implies keys_of(pairs@)[j]
                    == all_users[j] by {
                    assert(keys_of(pairs@)[j] == pairs@[j].0);
                }
            }
        }
        let ghost ps = pairs@;
        let r = top_n_of(pairs, limit);
        proof {
            assert forall|i2: int|
                0 <= i2 < r@.len() implies users_of(self.balances()).contains(#[trigger] r@[i2].0)
                && r@[i2].1 == clamp_u32(user_total(self.balances(), r@[i2].0)) by {
                assert(ps.contains(r@[i2]));
                let k = choose|k: int| 0 <= k < ps.len() && ps[k] == r@[i2];
                assert(ps[k] == (all_users[k], clamp_u32(user_total(self.balances(), all_users[k]))));
                assert(all_users.contains(all_users[k]));
            }
            assert forall|u: u64|
                users_of(self.balances()).contains(u) && !keys_of(r@).contains(u) implies r@.len()
                == limit && (r@.len() > 0 ==> clamp_u32(user_total(self.balances(), u))
                <= r@[r@.len() - 1].1) by {
                assert(all_users.contains(u));
                let k = choose|k: int| 0 <= k < all_users.len() && all_users[k] == u;
                assert(ps[k] == (u, clamp_u32(user_total(self.balances(), u))));
                assert(ps[k].0 == u);
            }
        }
        r
    }

    /// Dump both tables as flat record lists: one balance record per ledger
    /// entry, one configuration record per guild, each key exactly once.
    pub fn export_data(&self) -> (r: (Vec<UserBalance>, Vec<GuildConfig>))
        requires
            self.wf(),
        ensures
            describes_balances(r.0@, self.balances()),
            describes_configs(r.1@, self.configs()),
    {
        let mut balances: Vec<UserBalance> = Vec::new();
        let guild_ids = balance_guild_ids(&self.guild_balances);
        let mut gi: usize = 0;
        while gi < guild_ids.len()
            invariant
                self.wf(),
                0 <= gi <= guild_ids@.len(),
                guild_ids@.no_duplicates(),
                forall|j: int|
                    0 <= j < guild_ids@.len() ==> self.balances().contains_key(
                        #[trigger] guild_ids@[j],
                    ),
                forall|g: u64| self.balances().contains_key(g) ==> guild_ids@.contains(g),
                bal_keys(balances@).no_duplicates(),
                forall|i: int|
                    0 <= i < balances@.len() ==> pair_in(
                        self.balances(),
                        (#[trigger] balances@[i]).guild_id,
                        balances@[i].user_id,
                    ) && balances@[i].balance == self.balances()[balances@[i].guild_id][balances@[i].user_id]
                        && guild_ids@.take(gi as int).contains(balances@[i].guild_id),
                forall|k: int, u: u64|
                    0 <= k < gi && #[trigger] self.balances()[guild_ids@[k]].contains_key(u)
                        ==> exists|i: int|
                        0 <= i < balances@.len() && (#[trigger] balances@[i]).guild_id
                            == guild_ids@[k] && balances@[i].user_id == u,
            decreases guild_ids@.len() - gi,
        {
            let g = guild_ids[gi];
            proof {
                assert(!guild_ids@.take(gi as int).contains(g)) by {
                    if guild_ids@.take(gi as int).contains(g) {
                        let k = choose|k: int|
                            0 <= k < gi && guild_ids@.take(gi as int)[k] == g;
                        assert(guild_ids@[k] == guild_ids@[gi as int]);
                    }
                }
            }
            let es = balance_guild_entries(&self.guild_balances, g);
            let ghost base = balances@;
            let mut ei: usize = 0;
            while ei < es.len()
                invariant
                    self.wf(),
                    0 <= gi < guild_ids@.len(),
                    g == guild_ids@[gi as int],
                    !guild_ids@.take(gi as int).contains(g),
                    keys_of(es@).no_duplicates(),
                    forall|i: int|
                        0 <= i < es@.len() ==> self.balances().contains_key(g) && self.balances()[g].contains_key(#[trigger] es@[i].0) && self.balances()[g][es@[i].0]
                            == es@[i].1,
                    0 <= ei <= es@.len(),
                    balances@.len() == base.len() + ei,
                    forall|j: int| 0 <= j < base.len() ==> #[trigger] balances@[j] == base[j],
                    forall|j: int|
                        0 <= j < ei ==> #[trigger] balances@[base.len() + j] == (UserBalance {
                            guild_id: g,
                            user_id: es@[j].0,
                            balance: es@[j].1,
                        }),
                    bal_keys(base).no_duplicates(),
                    forall|i: int|
                        0 <= i < base.len() ==> pair_in(
                            self.balances(),
                            (#[trigger] base[i]).guild_id,
                            base[i].user_id,
                        ) && base[i].balance == self.balances()[base[i].guild_id][base[i].user_id]
                            && guild_ids@.take(gi as int).contains(base[i].guild_id),
                decreases es@.len() - ei,
            {
                let e = es[ei];
                balances.push(UserBalance { guild_id: g, user_id: e.0, balance: e.1 });
                ei = ei + 1;
            }
            gi = gi + 1;
            proof {
                assert(guild_ids@.take(gi as int) =~= guild_ids@.take(gi - 1).push(g));
                assert(bal_keys(balances@).no_duplicates()) by {
                    assert forall|a: int, b: int|
                        0 <= a < b < balances@.len() implies bal_keys(balances@)[a] != bal_keys(
                        balances@,
                    )[b] by {
                        assert(bal_keys(balances@)[a] == (
                            balances@[a].guild_id,
                            balances@[a].user_id,
                        ));
                        assert(bal_keys(balances@)[b] == (
                            balances@[b].guild_id,
                            balances@[b].user_id,
                        ));
                        if b < base.len() {
                            assert(bal_keys(base)[a] == (base[a].guild_id, base[a].user_id));
                            assert(bal_keys(base)[b] == (base[b].guild_id, base[b].user_id));
                        } else if a < base.len() {
                            assert(balances@[base.len() + (b - base.len())].guild_id == g);
                            assert(guild_ids@.take(gi - 1).contains(base[a].guild_id));
                        } else {
                            assert(balances@[base.len() + (a - base.len())].user_id == es@[a
                                - base.len()].0);
                            assert(balances@[base.len() + (b - base.len())].user_id == es@[b
                                - base.len()].0);
                            assert(keys_of(es@)[a - base.len()] == es@[a - base.len()].0);
                            assert(keys_of(es@)[b - base.len()] == es@[b - base.len()].0);
                        }
                    }
                }
                assert forall|i: int|
                    0 <= i < balances@.len() implies pair_in(
                    self.balances(),
                    (#[trigger] balances@[i]).guild_id,
                    balances@[i].user_id,
                ) && balances@[i].balance == self.balances()[balances@[i].guild_id][balances@[i].user_id]
                    && guild_ids@.take(gi as int).contains(balances@[i].guild_id) by {
                    if i < base.len() {
                        lemma_push_membership(guild_ids@.take(gi - 1), g, base[i].guild_id);
                    } else {
                        let j = i - base.len();
                        assert(balances@[base.len() + j] == (UserBalance {
                            guild_id: g,
                            user_id: es@[j].0,
                            balance: es@[j].1,
                        }));
                        lemma_push_membership(guild_ids@.take(gi - 1), g, g);
                    }
                }
                assert forall|k: int, u: u64|
                    0 <= k < gi && #[trigger] self.balances()[guild_ids@[k]].contains_key(u)
                        implies exists|i: int|
                        0 <= i < balances@.len() && (#[trigger] balances@[i]).guild_id
                            == guild_ids@[k] && balances@[i].user_id == u by {
                    if k < gi - 1 {
                        let i = choose|i: int|
                            0 <= i < base.len() && (#[trigger] base[i]).guild_id == guild_ids@[k]
                                && base[i].user_id == u;
                        assert(balances@[i] == base[i]);
                    } else {
                        let j = choose|j: int| 0 <= j < es@.len() && #[trigger] es@[j].0 == u;
                        assert(balances@[base.len() + j].user_id == u);
                        assert(balances@[base.len() + j].guild_id == g);
                    }
                }
            }
        }
        proof {
            assert forall|g: u64, u: u64|
                #[trigger] pair_in(self.balances(), g, u) implies exists|i: int|
                0 <= i < balances@.len() && (#[trigger] balances@[i]).guild_id == g
                    && balances@[i].user_id == u by {
                assert(guild_ids@.contains(g));
                let k = choose|k: int| 0 <= k < guild_ids@.len() && guild_ids@[k] == g;
                assert(self.balances()[guild_ids@[k]].contains_key(u));
            }
        }
        let mut configs: Vec<GuildConfig> = Vec::new();
        let cfg_ids = config_ids(&self.guild_configs);
        let mut ci: usize = 0;
        while ci < cfg_ids.len()
            invariant
                self.wf(),
                0 <= ci <= cfg_ids@.len(),
                cfg_ids@.no_duplicates(),
                forall|j: int|
                    0 <= j < cfg_ids@.len() ==> self.configs().contains_key(
                        #[trigger] cfg_ids@[j],
                    ),
                forall|g: u64| self.configs().contains_key(g) ==> cfg_ids@.contains(g),
                configs@.len() == ci,
                forall|j: int|
                    0 <= j < ci ==> (#[trigger] configs@[j]).guild_id == cfg_ids@[j]
                        && configs@[j] == self.configs()[cfg_ids@[j]],
            decreases cfg_ids@.len() - ci,
        {
            let g = cfg_ids[ci];
            let c = match config_read(&self.guild_configs, g) {
                Some(c) => c,
                None => GuildConfig::default(),
            };
            configs.push(c);
            ci = ci + 1;
        }
        proof {
            assert(config_keys(configs@).no_duplicates()) by {
                assert forall|a: int, b: int|
                    0 <= a < b < configs@.len() implies config_keys(configs@)[a] != config_keys(
                    configs@,
                )[b] by {
                    assert(config_keys(configs@)[a] == configs@[a].guild_id);
                    assert(config_keys(configs@)[b] == configs@[b].guild_id);
                }
            }
            assert forall|g: u64| #[trigger] self.configs().contains_key(g) implies exists|
                i: int,
            | 0 <= i < configs@.len() && (#[trigger] configs@[i]).guild_id == g by {
                assert(cfg_ids@.contains(g));
                let k = choose|k: int| 0 <= k < cfg_ids@.len() && cfg_ids@[k] == g;
                assert(configs@[k].guild_id == g);
            }
        }
        (balances, configs)
    }

    /// Upsert every given record into the store: balances key by
    /// (guild, user), configurations by guild, later records winning.
    /// Nothing is cleared first, so an import adds to what is there.
    pub fn import_data(&mut self, balances: Vec<UserBalance>, configs: Vec<GuildConfig>)
        requires
            old(self).wf(),
            forall|i: int|
                0 <= i < configs@.len() ==> status_wf((#[trigger] configs@[i]).vote_status),
        ensures
            final(self).wf(),
            final(self).balances() == import_balances(old(self).balances(), balances@),
            final(self).configs() == import_configs(old(self).configs(), configs@),
    {
        let ghost orig = *self;
        let mut i: usize = 0;
        while i < balances.len()
            invariant
                self.wf(),
                0 <= i <= balances@.len(),
                self.configs() == orig.configs(),
                import_balances(self.balances(), balances@.skip(i as int)) == import_balances(
                    orig.balances(),
                    balances@.skip(0),
                ),
            decreases balances@.len() - i,
        {
            let r = balances[i];
            proof {
                assert(balances@.skip(i as int).len() > 0);
                assert(balances@.skip(i as int)[0] == balances@[i as int]);
                assert(balances@.skip(i as int).drop_first() =~= balances@.skip(i + 1));
            }
            balance_write(&mut self.guild_balances, r.guild_id, r.user_id, r.balance);
            i = i + 1;
        }
        proof {
            assert(balances@.skip(0) =~= balances@);
            assert(balances@.skip(balances@.len() as int) =~= Seq::<UserBalance>::empty());
            assert(self.balances() == import_balances(orig.balances(), balances@));
        }
        let ghost mid = *self;
        let ghost all_configs = configs@;
        let mut configs = configs;
        while configs.len() > 0
            invariant
                self.wf(),
                forall|k: int|
                    0 <= k < configs@.len() ==> status_wf((#[trigger] configs@[k]).vote_status),
                self.balances() == mid.balances(),
                import_configs(self.configs(), configs@) == import_configs(
                    mid.configs(),
                    all_configs,
                ),
            decreases configs@.len(),
        {
            let ghost cs0 = configs@;
            let c = configs.remove(0);
            proof {
                assert(cs0[0] == c);
                assert(configs@ =~= cs0.drop_first());
                assert forall|k: int|
                    0 <= k < configs@.len() implies status_wf(
                    (#[trigger] configs@[k]).vote_status,
                ) by {
                    assert(configs@[k] == cs0[k + 1]);
                }
            }
            config_write(&mut self.guild_configs, c.guild_id, c);
        }
    }
}

impl Default for DataInner {
    /// Same as `new`: an empty store.
    fn default() -> (r: Self)
        ensures
            r.wf(),
            r.balances() == (Map::<u64, Map<u64, u32>>::empty()),
            r.configs() == (Map::<u64, GuildConfig>::empty()),
    {
        DataInner::new()
    }
}

impl Data {
    /// The whole store is well formed.
    pub open spec fn wf(&self) -> bool {
        self.0.wf()
    }

    /// Create an empty store.
    pub fn new() -> (r: Self)
        ensures
            r.wf(),
            r.0.balances() == (Map::<u64, Map<u64, u32>>::empty()),
            r.0.configs() == (Map::<u64, GuildConfig>::empty()),
    {
        Data(DataInner::new())
    }

    /// Upsert every given record into the store; see
    /// `DataInner::import_data`.
    pub fn import_data(&mut self, balances: Vec<UserBalance>, configs: Vec<GuildConfig>)
        requires
            old(self).wf(),
            forall|i: int|
                0 <= i < configs@.len() ==> status_wf((#[trigger] configs@[i]).vote_status),
        ensures
            final(self).wf(),
            final(self).0.balances() == import_balances(old(self).0.balances(), balances@),
            final(self).0.configs() == import_configs(old(self).0.configs(), configs@),
    {
        self.0.import_data(balances, configs);
    }

    /// Dump both tables as flat record lists; see `DataInner::export_data`.
    pub fn export_data(&self) -> (r: (Vec<UserBalance>, Vec<GuildConfig>))
        requires
            self.wf(),
        ensures
            describes_balances(r.0@, self.0.balances()),
            describes_configs(r.1@, self.0.configs()),
    {
        self.0.export_data()
    }
}

impl Default for Data {
    /// Same as `new`: an empty store.
    fn default() -> (r: Self)
        ensures
            r.wf(),
            r.0.balances() == (Map::<u64, Map<u64, u32>>::empty()),
            r.0.configs() == (Map::<u64, GuildConfig>::empty()),
    {
        Data::new()
    }
}

/// `a + b`, clamped at the `u64` ceiling.
fn sat_add64(a: u64, b: u64) -> (r: u64)
    ensures
        r == sat_add_u64(a, b),
{
    if a <= u64::MAX - b {
        a + b
    } else {
        u64::MAX
    }
}

/// A copy of `v` with every ballot of `u` removed.
fn remove_user(v: &Vec<u64>, u: u64) -> (r: Vec<u64>)
    ensures
        r@ == v@.filter(keep_other(u)),
{
    let mut r: Vec<u64> = Vec::new();
    let mut i: usize = 0;
    while i < v.len()
        invariant
            0 <= i <= v@.len(),
            r@ == v@.take(i as int).filter(keep_other(u)),
        decreases v@.len() - i,
    {
        proof {
            assert(v@.take(i + 1).drop_last() =~= v@.take(i as int));
            assert(v@.take(i + 1) =~= v@.take(i as int).push(v@[i as int]));
            lemma_filter_push(v@.take(i as int), keep_other(u), v@[i as int]);
        }
        if v[i] != u {
            r.push(v[i]);
        }
        i = i + 1;
    }
    proof {
        assert(v@.take(v@.len() as int) =~= v@);
    }
    r
}

} // verus!
