//! The compute parts of the chat commands: what each command decides and
//! returns. The platform plumbing — argument parsing, permission lookups,
//! replies — stays with the caller, which hands plain values in and out.

use vstd::prelude::*;

use crate::data::{
    cast_vote_post, clamp_u32, is_global_top, is_guild_top, sat_add_u32, start_vote_post,
    sub_floor_u32, user_total, Data,
};
use crate::events::log_balance_change;
use crate::tables::balance_upsert;
use crate::types::{VoteConfig, VoteDecision, VoteError};

verus! {

/// The balance the balance command reports: one guild's entry, or the
/// user's total across all guilds when asked for the global view or when
/// invoked outside any guild.
pub fn get_balance(data: &Data, user_id: u64, opt_guild_id: Option<u64>, is_global: bool) -> (r:
    u32)
    requires
        data.wf(),
    ensures
        r == (if is_global || opt_guild_id.is_none() {
            clamp_u32(user_total(data.0.balances(), user_id))
        } else {
            data.0.spec_guild_balance(opt_guild_id.unwrap(), user_id)
        }),
{
    if is_global {
        data.0.get_total_balance(user_id)
    } else {
        match opt_guild_id {
            Some(guild_id) => data.0.get_guild_balance(guild_id, user_id),
            None => data.0.get_total_balance(user_id),
        }
    }
}

/// The give command's effect: credit the amount to the receiver in the
/// guild (saturating at the ceiling) and report the new balance. The
/// balance-change event is built for the caller's log sink.
pub fn give_coins(
    data: &mut Data,
    guild_id: u64,
    user_id: u64,
    amount: u32,
    initiator_id: Option<u64>,
) -> (r: u32)
    requires
        old(data).wf(),
    ensures
        final(data).wf(),
        r == sat_add_u32(old(data).0.spec_guild_balance(guild_id, user_id), amount),
        final(data).0.balances() == balance_upsert(
            old(data).0.balances(),
            guild_id,
            user_id,
            r,
        ),
        final(data).0.configs() == old(data).0.configs(),
{
    let previous_balance = data.0.get_guild_balance(guild_id, user_id);
    let new_balance = data.0.add_coins(guild_id, user_id, amount);
    let _event = log_balance_change(
        guild_id,
        user_id,
        previous_balance,
        new_balance,
        "give_command",
        initiator_id,
    );
    new_balance
}

/// The leaderboard the leaderboard command reports, with its scope label:
/// the guild's ranking, or the global one when asked or when invoked
/// outside any guild.
pub fn get_leaderboard(data: &Data, guild_id: Option<u64>, is_global: bool, limit: usize) -> (r: (
    Vec<(u64, u32)>,
    &'static str,
))
    requires
        data.wf(),
    ensures
        (is_global || guild_id.is_none()) ==> is_global_top(data.0.balances(), limit, r.0@)
            && r.1@ == "Global"@,
        !(is_global || guild_id.is_none()) ==> is_guild_top(
            data.0.balances(),
            guild_id.unwrap(),
            limit,
            r.0@,
        ) && r.1@ == "Server"@,
{
    if is_global {
        (data.0.get_global_top_users(limit), "Global")
    } else {
        match guild_id {
            Some(g) => (data.0.get_guild_top_users(g, limit), "Server"),
            None => (data.0.get_global_top_users(limit), "Global"),
        }
    }
}

/// The vote-configuration command's decision: apply the given overrides to
/// the current configuration, rejecting a majority percentage over 100
/// before anything changes.
pub fn update_vote_config(
    current: &VoteConfig,
    cooldown_hours: Option<u32>,
    duration_minutes: Option<u32>,
    min_votes: Option<u32>,
    majority_percentage: Option<u32>,
) -> (r: Result<VoteConfig, VoteError>)
    ensures
        (majority_percentage.is_some() && majority_percentage.unwrap() > 100) ==> r == Err::<
            VoteConfig,
            VoteError,
        >(VoteError::InvalidPercentage),
        !(majority_percentage.is_some() && majority_percentage.unwrap() > 100) ==> r == Ok::<
            VoteConfig,
            VoteError,
        >(
            VoteConfig {
                cooldown_hours: (if cooldown_hours.is_some() {
                    cooldown_hours.unwrap()
                } else {
                    current.cooldown_hours
                }),
                duration_minutes: (if duration_minutes.is_some() {
                    duration_minutes.unwrap()
                } else {
                    current.duration_minutes
                }),
                min_votes: (if min_votes.is_some() {
                    min_votes.unwrap()
                } else {
                    current.min_votes
                }),
                majority_percentage: (if majority_percentage.is_some() {
                    majority_percentage.unwrap()
                } else {
                    current.majority_percentage
                }),
            },
        ),
{
    if let Some(p) = majority_percentage {
        if p > 100 {
            return Err(VoteError::InvalidPercentage);
        }
    }
    let updated = VoteConfig {
        cooldown_hours: match cooldown_hours {
            Some(h) => h,
            None => current.cooldown_hours,
        },
        duration_minutes: match duration_minutes {
            Some(m) => m,
            None => current.duration_minutes,
        },
        min_votes: match min_votes {
            Some(v) => v,
            None => current.min_votes,
        },
        majority_percentage: match majority_percentage {
            Some(p) => p,
            None => current.majority_percentage,
        },
    };
    Ok(updated)
}

/// The vote command's dispatch at time `now`: start a vote (reporting its
/// end time) or cast the chosen ballot, with the matching transition's full
/// contract.
pub fn apply_vote_decision(
    data: &mut Data,
    guild_id: u64,
    user_id: u64,
    decision: VoteDecision,
    now: u64,
) -> (r: Result<Option<u64>, VoteError>)
    requires
        old(data).wf(),
    ensures
        final(data).wf(),
        decision == VoteDecision::Start ==> (match r {
            Ok(opt) => opt.is_some() && start_vote_post(
                old(data).0,
                final(data).0,
                guild_id,
                user_id,
                now,
                Ok(opt.unwrap()),
            ),
            Err(e) => start_vote_post(
                old(data).0,
                final(data).0,
                guild_id,
                user_id,
                now,
                Err::<u64, VoteError>(e),
            ),
        }),
        decision == VoteDecision::Yes ==> (match r {
            Ok(opt) => opt.is_none() && cast_vote_post(
                old(data).0,
                final(data).0,
                guild_id,
                user_id,
                true,
                now,
                Ok(()),
            ),
            Err(e) => cast_vote_post(
                old(data).0,
                final(data).0,
                guild_id,
                user_id,
                true,
                now,
                Err::<(), VoteError>(e),
            ),
        }),
        decision == VoteDecision::No ==> (match r {
            Ok(opt) => opt.is_none() && cast_vote_post(
                old(data).0,
                final(data).0,
                guild_id,
                user_id,
                false,
                now,
                Ok(()),
            ),
            Err(e) => cast_vote_post(
                old(data).0,
                final(data).0,
                guild_id,
                user_id,
                false,
                now,
                Err::<(), VoteError>(e),
            ),
        }),
{
    match decision {
        VoteDecision::Start => match data.0.start_vote_at(guild_id, user_id, now) {
            Ok(end_time) => Ok(Some(end_time)),
            Err(e) => Err(e),
        },
        VoteDecision::Yes => match data.0.cast_vote_at(guild_id, user_id, true, now) {
            Ok(()) => Ok(None),
            Err(e) => Err(e),
        },
        VoteDecision::No => match data.0.cast_vote_at(guild_id, user_id, false, now) {
            Ok(()) => Ok(None),
            Err(e) => Err(e),
        },
    }
}

/// The flip command's betting settlement, with the coin's outcome handed in:
/// a player needs at least one coin to bet; a correct guess wins one coin, a
/// wrong one loses one. Reports whether the player won and the new balance.
pub fn settle_flip_bet(
    data: &mut Data,
    guild_id: u64,
    user_id: u64,
    guess_heads: bool,
    result_heads: bool,
) -> (r: Option<(bool, u32)>)
    requires
        old(data).wf(),
    ensures
        final(data).wf(),
        final(data).0.configs() == old(data).0.configs(),
        old(data).0.spec_guild_balance(guild_id, user_id) == 0 ==> r.is_none() && final(data).0.balances() == old(data).0.balances(),
        old(data).0.spec_guild_balance(guild_id, user_id) > 0 ==> r == Some(
            (
                guess_heads == result_heads,
                (if guess_heads == result_heads {
                    sat_add_u32(old(data).0.spec_guild_balance(guild_id, user_id), 1)
                } else {
                    sub_floor_u32(old(data).0.spec_guild_balance(guild_id, user_id), 1)
                }),
            ),
        ) && final(data).0.balances() == balance_upsert(
            old(data).0.balances(),
            guild_id,
            user_id,
            r.unwrap().1,
        ),
{
    let current_balance = data.0.get_guild_balance(guild_id, user_id);
    if current_balance < 1 {
        return None;
    }
    if guess_heads == result_heads {
        let new_balance = data.0.add_coins(guild_id, user_id, 1);
        Some((true, new_balance))
    } else {
        let new_balance = data.0.remove_coins(guild_id, user_id, 1);
        Some((false, new_balance))
    }
}

} // verus!
