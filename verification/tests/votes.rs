//! Vote state machine tests: the full lifecycle, quorum, cooldown,
//! re-voting, and lazy expiry, all driven with explicit clock values.

use andycoin::data::Data;
use andycoin::types::{VoteConfig, VoteError};
use andycoin::vote::{evaluate_votes, sanitized_status};

fn config(min_votes: u32, majority_percentage: u32) -> VoteConfig {
    VoteConfig {
        cooldown_hours: 24,
        duration_minutes: 30,
        min_votes,
        majority_percentage,
    }
}

#[test]
fn test_vote_pass_resets_balances() {
    // min_votes = 3, majority 70%: three yes ballots out of three is 100%,
    // so the vote passes and the guild's balances drop to zero.
    let mut data = Data::new();
    let guild_id: u64 = 1;
    data.0.set_vote_config(guild_id, &config(3, 70));
    data.0.add_coins(guild_id, 100, 500);
    data.0.add_coins(guild_id, 200, 7);
    data.0.add_coins(2, 100, 40); // another guild stays untouched

    let end_time = data.0.start_vote_at(guild_id, 100, 1_000).unwrap();
    assert_eq!(end_time, 1_000 + 30 * 60);
    // The initiator already counts as a yes; two more arrive.
    data.0.cast_vote_at(guild_id, 200, true, 1_100).unwrap();
    data.0.cast_vote_at(guild_id, 300, true, 1_200).unwrap();

    let passed = data.0.end_vote_at(guild_id, 1_300).unwrap();
    assert!(passed);
    assert_eq!(data.0.get_guild_balance(guild_id, 100), 0);
    assert_eq!(data.0.get_guild_balance(guild_id, 200), 0);
    assert_eq!(data.0.get_guild_balance(2, 100), 40);
    assert!(!data.0.get_vote_status(guild_id).active);
}

#[test]
fn test_vote_fails_below_quorum() {
    // min_votes = 10 but only 4 ballots arrive: the vote fails no matter
    // how one-sided the tally is.
    let mut data = Data::new();
    let guild_id: u64 = 1;
    data.0.set_vote_config(guild_id, &config(10, 70));
    data.0.add_coins(guild_id, 100, 500);

    data.0.start_vote_at(guild_id, 100, 1_000).unwrap();
    data.0.cast_vote_at(guild_id, 200, true, 1_010).unwrap();
    data.0.cast_vote_at(guild_id, 300, true, 1_020).unwrap();
    data.0.cast_vote_at(guild_id, 400, true, 1_030).unwrap();

    let passed = data.0.end_vote_at(guild_id, 1_100).unwrap();
    assert!(!passed);
    // Balances survive a failed vote.
    assert_eq!(data.0.get_guild_balance(guild_id, 100), 500);
}

#[test]
fn test_vote_fails_below_majority() {
    // Quorum reached, but 2 yes of 4 is 50% < 70%.
    let mut data = Data::new();
    let guild_id: u64 = 1;
    data.0.set_vote_config(guild_id, &config(3, 70));

    data.0.start_vote_at(guild_id, 100, 1_000).unwrap();
    data.0.cast_vote_at(guild_id, 200, true, 1_010).unwrap();
    data.0.cast_vote_at(guild_id, 300, false, 1_020).unwrap();
    data.0.cast_vote_at(guild_id, 400, false, 1_030).unwrap();

    assert_eq!(data.0.end_vote_at(guild_id, 1_100), Ok(false));
}

#[test]
fn test_start_vote_twice_fails() {
    let mut data = Data::new();
    let guild_id: u64 = 1;

    data.0.start_vote_at(guild_id, 100, 1_000).unwrap();
    let second = data.0.start_vote_at(guild_id, 200, 1_001);
    assert_eq!(second, Err(VoteError::VoteAlreadyActive));
}

#[test]
fn test_cooldown_blocks_then_allows() {
    // After a vote ends, a new one may not start until cooldown_hours have
    // elapsed from the end.
    let mut data = Data::new();
    let guild_id: u64 = 1;
    data.0.set_vote_config(guild_id, &config(3, 70));

    data.0.start_vote_at(guild_id, 100, 1_000).unwrap();
    data.0.end_vote_at(guild_id, 2_000).unwrap();

    let cooldown_seconds: u64 = 24 * 3600;
    let blocked = data.0.start_vote_at(guild_id, 100, 2_000 + cooldown_seconds - 1);
    assert_eq!(blocked, Err(VoteError::CooldownInEffect));

    let allowed = data.0.start_vote_at(guild_id, 100, 2_000 + cooldown_seconds);
    assert!(allowed.is_ok());
}

#[test]
fn test_revote_moves_ballot() {
    // Casting yes then no leaves the user only in the no list, still as a
    // single ballot.
    let mut data = Data::new();
    let guild_id: u64 = 1;

    data.0.start_vote_at(guild_id, 100, 1_000).unwrap();
    data.0.cast_vote_at(guild_id, 200, true, 1_010).unwrap();
    data.0.cast_vote_at(guild_id, 200, false, 1_020).unwrap();

    let status = data.0.get_vote_status(guild_id);
    assert!(!status.yes_votes.contains(&200));
    assert!(status.no_votes.contains(&200));
    assert_eq!(
        status
            .no_votes
            .iter()
            .filter(|u| **u == 200)
            .count(),
        1
    );
    // Initiator's automatic yes plus the moved ballot: two in total.
    assert_eq!(status.yes_votes.len() + status.no_votes.len(), 2);
}

#[test]
fn test_cast_without_vote_fails() {
    let mut data = Data::new();
    assert_eq!(
        data.0.cast_vote_at(1, 100, true, 1_000),
        Err(VoteError::NoActiveVote)
    );
    assert_eq!(data.0.end_vote_at(1, 1_000), Err(VoteError::NoActiveVote));
}

#[test]
fn test_cast_after_expiry_ends_vote() {
    let mut data = Data::new();
    let guild_id: u64 = 1;
    data.0.set_vote_config(guild_id, &config(3, 70));

    let end_time = data.0.start_vote_at(guild_id, 100, 1_000).unwrap();
    // A ballot arriving after the end time is rejected, and the vote is
    // resolved on the spot.
    let late = data.0.cast_vote_at(guild_id, 200, true, end_time + 1);
    assert_eq!(late, Err(VoteError::VoteEnded));
    assert!(!data.0.get_vote_status(guild_id).active);
}

#[test]
fn test_check_vote_expiry() {
    let mut data = Data::new();
    let guild_id: u64 = 1;
    data.0.set_vote_config(guild_id, &config(1, 50));

    // No vote: nothing to report.
    assert_eq!(data.0.check_vote_expiry_at(guild_id, 1_000), None);

    let end_time = data.0.start_vote_at(guild_id, 100, 1_000).unwrap();
    // Still running: nothing to report.
    assert_eq!(data.0.check_vote_expiry_at(guild_id, end_time), None);
    // Past the end: the vote is ended and its outcome reported (one yes of
    // one ballot, quorum one: it passes).
    assert_eq!(data.0.check_vote_expiry_at(guild_id, end_time + 1), Some(true));
    assert!(!data.0.get_vote_status(guild_id).active);
}

#[test]
fn test_expire_votes_sweep() {
    let mut data = Data::new();
    data.0.set_vote_config(1, &config(1, 50));
    data.0.set_vote_config(2, &config(1, 50));
    data.0.set_vote_config(3, &config(1, 50));

    let end1 = data.0.start_vote_at(1, 100, 1_000).unwrap();
    let _end2 = data.0.start_vote_at(2, 100, 5_000_000).unwrap();

    // Guild 1's vote has run out; guild 2's is still running; guild 3 never
    // voted.
    let mut ended = data.0.expire_votes_at(end1 + 1);
    ended.sort();
    assert_eq!(ended, vec![1]);
    assert!(!data.0.get_vote_status(1).active);
    assert!(data.0.get_vote_status(2).active);
}

#[test]
fn test_vote_error_messages() {
    assert_eq!(
        VoteError::NoActiveVote.message(),
        "No vote is active in this server"
    );
    assert_eq!(
        VoteError::VoteAlreadyActive.message(),
        "A vote is already active in this server"
    );
    assert_eq!(
        VoteError::CooldownInEffect.message(),
        "A vote was recently completed. Please wait for the cooldown period to end"
    );
    assert_eq!(VoteError::VoteEnded.message(), "The vote has ended");
    assert_eq!(
        VoteError::InvalidPercentage.message(),
        "Majority percentage cannot be greater than 100%"
    );
}

#[test]
fn test_zero_quorum_zero_ballots() {
    // With min_votes = 0 and no ballots at all, the yes-share counts as 0%,
    // so only a zero majority threshold passes. The initiator's automatic
    // yes means a started vote always has one ballot, so drive the rule
    // directly through the shared evaluator.
    let zero_cfg = config(0, 70);
    assert!(!evaluate_votes(0, 0, &zero_cfg));
    let lax_cfg = config(0, 0);
    assert!(evaluate_votes(0, 0, &lax_cfg));
    // At the threshold the comparison is >=, not >.
    let cfg = config(1, 50);
    assert!(evaluate_votes(1, 1, &cfg));
    assert!(!evaluate_votes(0, 1, &cfg));
}

#[test]
fn test_sanitized_status() {
    // Duplicate and conflicting ballots collapse to one per user, with a
    // yes winning over a no; a vote whose time span is unusable goes
    // inactive.
    let status = sanitized_status(
        true,
        Some(1_000),
        Some(2_000),
        Some(100),
        vec![100, 200, 100],
        vec![200, 300, 300],
        None,
    );
    assert!(status.active);
    assert_eq!(status.yes_votes, vec![100, 200]);
    assert_eq!(status.no_votes, vec![300]);

    let stale = sanitized_status(true, Some(2_000), Some(1_000), None, vec![], vec![], Some(5));
    assert!(!stale.active);
    assert_eq!(stale.last_vote_time, Some(5));
}
