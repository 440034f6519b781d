//! Command-layer tests: the compute parts the chat handlers call.

use andycoin::commands::{
    apply_vote_decision, get_balance, get_leaderboard, give_coins, settle_flip_bet,
    update_vote_config,
};
use andycoin::data::Data;
use andycoin::events::{log_balance_change, log_command};
use andycoin::types::{VoteConfig, VoteDecision, VoteError};

/// Helper function to create a test user ID
fn test_user_id(id: u64) -> u64 {
    id
}

/// Helper function to create a test guild ID
fn test_guild_id(id: u64) -> u64 {
    id
}

#[test]
fn test_get_balance() {
    let mut data = Data::new();
    let guild1 = test_guild_id(1);
    let guild2 = test_guild_id(2);
    let user_id = test_user_id(123);

    // Add coins in different guilds
    data.0.add_coins(guild1, user_id, 50);
    data.0.add_coins(guild2, user_id, 30);

    // Test guild-specific balance
    let balance = get_balance(&data, user_id, Some(guild1), false);
    assert_eq!(balance, 50);

    // Test global balance
    let balance = get_balance(&data, user_id, Some(guild1), true);
    assert_eq!(balance, 80);

    // Test balance in DM (should be global)
    let balance = get_balance(&data, user_id, None, false);
    assert_eq!(balance, 80);
}

#[test]
fn test_give_coins() {
    let mut data = Data::new();
    let guild_id = test_guild_id(1);
    let user_id = test_user_id(123);
    let initiator_id = test_user_id(456);

    // Test giving coins
    let new_balance = give_coins(&mut data, guild_id, user_id, 50, Some(initiator_id));
    assert_eq!(new_balance, 50);

    // Test giving more coins
    let new_balance = give_coins(&mut data, guild_id, user_id, 25, Some(initiator_id));
    assert_eq!(new_balance, 75);
}

#[test]
fn test_get_leaderboard() {
    let mut data = Data::new();
    let guild1 = test_guild_id(1);
    let guild2 = test_guild_id(2);

    // Add balances for multiple users across different guilds
    data.0.add_coins(guild1, test_user_id(1), 100);
    data.0.add_coins(guild2, test_user_id(1), 50); // Same user in different guild
    data.0.add_coins(guild1, test_user_id(2), 50);
    data.0.add_coins(guild1, test_user_id(3), 75);
    data.0.add_coins(guild2, test_user_id(3), 70); // Same user in different guild

    // Test guild-specific leaderboard
    let (top_users, scope) = get_leaderboard(&data, Some(guild1), false, 3);
    assert_eq!(scope, "Server");
    assert_eq!(top_users.len(), 3);

    // The order might vary among equal balances, so we'll just check that
    // the expected users and balances are present
    let has_user1 = top_users
        .iter()
        .any(|(id, bal)| *id == test_user_id(1) && *bal == 100);
    let has_user2 = top_users
        .iter()
        .any(|(id, bal)| *id == test_user_id(2) && *bal == 50);
    let has_user3 = top_users
        .iter()
        .any(|(id, bal)| *id == test_user_id(3) && *bal == 75);

    assert!(
        has_user1,
        "User 1 with balance 100 should be in the top users"
    );
    assert!(
        has_user2,
        "User 2 with balance 50 should be in the top users"
    );
    assert!(
        has_user3,
        "User 3 with balance 75 should be in the top users"
    );

    // Test global leaderboard
    let (top_users, scope) = get_leaderboard(&data, Some(guild1), true, 3);
    assert_eq!(scope, "Global");
    assert_eq!(top_users.len(), 3);
    assert_eq!(top_users[0].0, test_user_id(1));
    assert_eq!(top_users[0].1, 150); // 100 + 50
    assert_eq!(top_users[1].0, test_user_id(3));
    assert_eq!(top_users[1].1, 145); // 75 + 70

    // Test leaderboard in DM (should be global)
    let (top_users, scope) = get_leaderboard(&data, None, false, 3);
    assert_eq!(scope, "Global");
    assert_eq!(top_users.len(), 3);
}

#[test]
fn test_update_vote_config() {
    let current = VoteConfig::default();

    // A percentage over 100 is rejected before anything changes.
    assert_eq!(
        update_vote_config(&current, None, None, None, Some(101)),
        Err(VoteError::InvalidPercentage)
    );

    // Absent overrides keep the current values.
    let updated = update_vote_config(&current, Some(12), None, Some(5), Some(60)).unwrap();
    assert_eq!(updated.cooldown_hours, 12);
    assert_eq!(updated.duration_minutes, current.duration_minutes);
    assert_eq!(updated.min_votes, 5);
    assert_eq!(updated.majority_percentage, 60);

    // Exactly 100 is still a valid threshold.
    assert!(update_vote_config(&current, None, None, None, Some(100)).is_ok());
}

#[test]
fn test_vote_config_defaults() {
    let d = VoteConfig::default();
    assert_eq!(d.cooldown_hours, 24);
    assert_eq!(d.duration_minutes, 30);
    assert_eq!(d.min_votes, 10);
    assert_eq!(d.majority_percentage, 70);
}

#[test]
fn test_apply_vote_decision() {
    let mut data = Data::new();
    let guild_id = test_guild_id(1);

    let started = apply_vote_decision(&mut data, guild_id, 100, VoteDecision::Start, 1_000);
    assert_eq!(started, Ok(Some(1_000 + 30 * 60)));

    let voted = apply_vote_decision(&mut data, guild_id, 200, VoteDecision::Yes, 1_010);
    assert_eq!(voted, Ok(None));

    let moved = apply_vote_decision(&mut data, guild_id, 200, VoteDecision::No, 1_020);
    assert_eq!(moved, Ok(None));

    let status = data.0.get_vote_status(guild_id);
    assert_eq!(status.yes_votes, vec![100]);
    assert_eq!(status.no_votes, vec![200]);
}

#[test]
fn test_log_command_event() {
    let event = log_command("give", Some(1), 123, "amount: 50", true);
    assert_eq!(event.command, "give");
    assert_eq!(event.guild_id, Some(1));
    assert_eq!(event.user_id, 123);
    assert_eq!(event.arguments, "amount: 50");
    assert!(event.success);
}

#[test]
fn test_log_balance_change_event() {
    let event = log_balance_change(1, 123, 50, 30, "remove_coins", None);
    assert_eq!(event.guild_id, 1);
    assert_eq!(event.user_id, 123);
    assert_eq!(event.previous_balance, 50);
    assert_eq!(event.new_balance, 30);
    assert_eq!(event.change, -20);
    assert_eq!(event.reason, "remove_coins");
    assert_eq!(event.initiator_id, None);

    let gain = log_balance_change(1, 123, 0, 75, "give_command", Some(456));
    assert_eq!(gain.change, 75);
    assert_eq!(gain.initiator_id, Some(456));
}

#[test]
fn test_settle_flip_bet() {
    let mut data = Data::new();
    let guild_id = test_guild_id(1);
    let user_id = test_user_id(123);

    // Betting with no coins is refused.
    assert_eq!(settle_flip_bet(&mut data, guild_id, user_id, true, true), None);

    data.0.add_coins(guild_id, user_id, 10);

    // A correct guess wins one coin.
    assert_eq!(
        settle_flip_bet(&mut data, guild_id, user_id, true, true),
        Some((true, 11))
    );
    // A wrong guess loses one coin.
    assert_eq!(
        settle_flip_bet(&mut data, guild_id, user_id, false, true),
        Some((false, 10))
    );
}
