//! Ledger store tests: balances, roles, coin flips.

use andycoin::data::{Data, DataInner};

/// Helper function to create a test user ID
fn test_user_id(id: u64) -> u64 {
    id
}

/// Helper function to create a test guild ID
fn test_guild_id(id: u64) -> u64 {
    id
}

/// Helper function to create a test role ID
fn test_role_id(id: u64) -> u64 {
    id
}

#[test]
fn test_get_balance_empty() {
    let data = Data::new();
    let guild_id = test_guild_id(1);
    let user_id = test_user_id(123);

    // Balance should be 0 for a new user
    assert_eq!(data.0.get_guild_balance(guild_id, user_id), 0);
    assert_eq!(data.0.get_total_balance(user_id), 0);
}

#[test]
fn test_add_coins() {
    let mut data = Data::new();
    let guild_id = test_guild_id(1);
    let user_id = test_user_id(123);

    // Add coins and check the new balance
    let new_balance = data.0.add_coins(guild_id, user_id, 50);
    assert_eq!(new_balance, 50);
    assert_eq!(data.0.get_guild_balance(guild_id, user_id), 50);
    assert_eq!(data.0.get_total_balance(user_id), 50);

    // Add more coins and check the updated balance
    let new_balance = data.0.add_coins(guild_id, user_id, 25);
    assert_eq!(new_balance, 75);
    assert_eq!(data.0.get_guild_balance(guild_id, user_id), 75);
    assert_eq!(data.0.get_total_balance(user_id), 75);
}

#[test]
fn test_multi_guild_balances() {
    let mut data = Data::new();
    let guild1 = test_guild_id(1);
    let guild2 = test_guild_id(2);
    let user_id = test_user_id(123);

    // Add coins in different guilds
    data.0.add_coins(guild1, user_id, 50);
    data.0.add_coins(guild2, user_id, 30);

    // Check guild-specific balances
    assert_eq!(data.0.get_guild_balance(guild1, user_id), 50);
    assert_eq!(data.0.get_guild_balance(guild2, user_id), 30);

    // Check total balance
    assert_eq!(data.0.get_total_balance(user_id), 80);
}

#[test]
fn test_get_guild_top_users() {
    let mut data = Data::new();
    let guild_id = test_guild_id(1);

    // Add balances for multiple users
    data.0.add_coins(guild_id, test_user_id(1), 100);
    data.0.add_coins(guild_id, test_user_id(2), 50);
    data.0.add_coins(guild_id, test_user_id(3), 200);
    data.0.add_coins(guild_id, test_user_id(4), 75);

    // Get top 3 users
    let top_users = data.0.get_guild_top_users(guild_id, 3);

    // Check the order and values
    assert_eq!(top_users.len(), 3);
    assert_eq!(top_users[0].0, test_user_id(3));
    assert_eq!(top_users[0].1, 200);
    assert_eq!(top_users[1].0, test_user_id(1));
    assert_eq!(top_users[1].1, 100);
    assert_eq!(top_users[2].0, test_user_id(4));
    assert_eq!(top_users[2].1, 75);
}

#[test]
fn test_get_global_top_users() {
    let mut data = Data::new();
    let guild1 = test_guild_id(1);
    let guild2 = test_guild_id(2);

    // Add balances for multiple users across different guilds
    data.0.add_coins(guild1, test_user_id(1), 100);
    data.0.add_coins(guild2, test_user_id(1), 50); // Same user in different guild

    data.0.add_coins(guild1, test_user_id(2), 50);

    data.0.add_coins(guild1, test_user_id(3), 75);
    data.0.add_coins(guild2, test_user_id(3), 75); // Same user in different guild

    // Get top 3 users globally
    let top_users = data.0.get_global_top_users(3);

    // Check the number of users
    assert_eq!(top_users.len(), 3);

    // Since users with the same balance might be ordered differently depending on the implementation,
    // we'll check that the expected users and balances are present
    let user1_entry = top_users.iter().find(|(id, _)| *id == test_user_id(1));
    let user2_entry = top_users.iter().find(|(id, _)| *id == test_user_id(2));
    let user3_entry = top_users.iter().find(|(id, _)| *id == test_user_id(3));

    assert!(user1_entry.is_some(), "User 1 should be in the top users");
    assert!(user2_entry.is_some(), "User 2 should be in the top users");
    assert!(user3_entry.is_some(), "User 3 should be in the top users");

    assert_eq!(
        user1_entry.unwrap().1,
        150,
        "User 1 should have 150 coins (100 + 50)"
    );
    assert_eq!(user2_entry.unwrap().1, 50, "User 2 should have 50 coins");
    assert_eq!(
        user3_entry.unwrap().1,
        150,
        "User 3 should have 150 coins (75 + 75)"
    );

    // Check that users with the same balance (1 and 3) are sorted by their balance
    let user1_pos = top_users
        .iter()
        .position(|(id, _)| *id == test_user_id(1))
        .unwrap();
    let user3_pos = top_users
        .iter()
        .position(|(id, _)| *id == test_user_id(3))
        .unwrap();

    assert!(
        user1_pos < 2 && user3_pos < 2,
        "Users 1 and 3 should be in the top 2 positions"
    );
    assert!(
        user1_pos != user3_pos,
        "Users 1 and 3 should be in different positions"
    );
}

#[test]
fn test_set_get_giver_role() {
    let mut data = Data::new();
    let guild_id = test_guild_id(1);
    let role_id = test_role_id(123);

    // Initially, no giver role is set
    assert_eq!(data.0.get_giver_role(guild_id), None);

    // Set a giver role
    data.0.set_giver_role(guild_id, Some(role_id));

    // Check that the giver role is set
    assert_eq!(data.0.get_giver_role(guild_id), Some(role_id));

    // Clear the giver role
    data.0.set_giver_role(guild_id, None);

    // Check that the giver role is cleared
    assert_eq!(data.0.get_giver_role(guild_id), None);
}

#[test]
fn test_flip_coin() {
    // Flip the coin multiple times to ensure it returns both true and false
    let mut heads_count = 0;
    let mut tails_count = 0;

    for _ in 0..100 {
        if DataInner::flip_coin() {
            heads_count += 1;
        } else {
            tails_count += 1;
        }
    }

    // Both heads and tails should occur
    assert!(heads_count > 0);
    assert!(tails_count > 0);
}

#[test]
fn test_has_giver_role() {
    let mut data = Data::new();
    let guild_id = test_guild_id(1);
    let role_id = test_role_id(123);

    // The guild owner always may give, role or no role.
    assert!(data.0.has_giver_role(guild_id, true, &vec![]));

    // With no giver role set, a non-owner may not give.
    assert!(!data.0.has_giver_role(guild_id, false, &vec![role_id]));

    data.0.set_giver_role(guild_id, Some(role_id));

    // Holding the configured role grants the permission; other roles do not.
    assert!(data.0.has_giver_role(guild_id, false, &vec![7, role_id]));
    assert!(!data.0.has_giver_role(guild_id, false, &vec![7, 8]));
}

#[test]
fn test_debit_floors_at_zero() {
    let mut data = Data::new();
    let guild_id = test_guild_id(1);
    let user_id = test_user_id(123);

    data.0.add_coins(guild_id, user_id, 5);
    // Debiting more than the balance clamps to zero; no error.
    assert_eq!(data.0.remove_coins(guild_id, user_id, 10), 0);
    assert_eq!(data.0.get_guild_balance(guild_id, user_id), 0);
    // Debiting an absent user creates a zero entry.
    assert_eq!(data.0.remove_coins(guild_id, test_user_id(999), 3), 0);
    assert_eq!(data.0.get_guild_balance(guild_id, test_user_id(999)), 0);
}

#[test]
fn test_balance_fold_with_floor() {
    let mut data = Data::new();
    let guild_id = test_guild_id(1);
    let user_id = test_user_id(123);

    // Each step clamps: 0 +5 = 5, 5 -10 floors at 0, 0 +3 = 3. The plain
    // signed sum (-2) is not what the ledger reports once the floor is hit.
    data.0.add_coins(guild_id, user_id, 5);
    data.0.remove_coins(guild_id, user_id, 10);
    let final_balance = data.0.add_coins(guild_id, user_id, 3);
    assert_eq!(final_balance, 3);
    assert_eq!(data.0.get_guild_balance(guild_id, user_id), 3);
}

#[test]
fn test_balance_fold_without_clamping() {
    let mut data = Data::new();
    let guild_id = test_guild_id(1);
    let user_id = test_user_id(123);

    // A run that never hits a bound lands on the signed sum of its deltas.
    data.0.add_coins(guild_id, user_id, 50);
    data.0.remove_coins(guild_id, user_id, 20);
    data.0.add_coins(guild_id, user_id, 7);
    let final_balance = data.0.remove_coins(guild_id, user_id, 5);
    assert_eq!(final_balance, 50 - 20 + 7 - 5);
}

#[test]
fn test_credit_saturates_at_ceiling() {
    let mut data = Data::new();
    let guild_id = test_guild_id(1);
    let user_id = test_user_id(123);

    data.0.add_coins(guild_id, user_id, u32::MAX - 1);
    assert_eq!(data.0.add_coins(guild_id, user_id, 10), u32::MAX);
}

#[test]
fn test_reset_clears_everything() {
    let mut data = Data::new();
    data.0.add_coins(1, 123, 50);
    data.0.set_giver_role(2, Some(9));
    data.0.reset();
    assert_eq!(data.0.get_guild_balance(1, 123), 0);
    assert_eq!(data.0.get_giver_role(2), None);
    assert!(data.0.get_guild_ids().is_empty());
}
