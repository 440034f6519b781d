//! Snapshot record tests: import, export, and the round trip.

use andycoin::data::Data;
use andycoin::types::{GuildConfig, UserBalance, VoteConfig, VoteStatus};

/// Helper function to create a test user ID
fn test_user_id(id: u64) -> u64 {
    id
}

/// Helper function to create a test guild ID
fn test_guild_id(id: u64) -> u64 {
    id
}

/// Helper function to create a test role ID
fn test_role_id(id: u64) -> u64 {
    id
}

#[test]
fn test_import_data() {
    let mut data = Data::new();
    let balances = vec![
        UserBalance {
            guild_id: 1,
            user_id: 123,
            balance: 100,
        },
        UserBalance {
            guild_id: 1,
            user_id: 456,
            balance: 200,
        },
        UserBalance {
            guild_id: 2,
            user_id: 123,
            balance: 50,
        },
    ];

    let configs = vec![
        GuildConfig {
            guild_id: 1,
            giver_role_id: Some(789),
            vote_config: VoteConfig::default(),
            vote_status: VoteStatus::default(),
        },
        GuildConfig {
            guild_id: 2,
            giver_role_id: None,
            vote_config: VoteConfig::default(),
            vote_status: VoteStatus::default(),
        },
    ];

    data.import_data(balances, configs);

    // Check guild-specific balances
    assert_eq!(
        data.0.get_guild_balance(test_guild_id(1), test_user_id(123)),
        100
    );
    assert_eq!(
        data.0.get_guild_balance(test_guild_id(1), test_user_id(456)),
        200
    );
    assert_eq!(
        data.0.get_guild_balance(test_guild_id(2), test_user_id(123)),
        50
    );
    assert_eq!(
        data.0.get_guild_balance(test_guild_id(1), test_user_id(789)),
        0
    ); // Non-existent user

    // Check total balances
    assert_eq!(data.0.get_total_balance(test_user_id(123)), 150); // 100 + 50
    assert_eq!(data.0.get_total_balance(test_user_id(456)), 200);

    // Check guild configs
    assert_eq!(
        data.0.get_giver_role(test_guild_id(1)),
        Some(test_role_id(789))
    );
    assert_eq!(data.0.get_giver_role(test_guild_id(2)), None);
}

#[test]
fn test_export_data() {
    let mut data = Data::new();

    // Add some balances across different guilds
    data.0.add_coins(test_guild_id(1), test_user_id(123), 100);
    data.0.add_coins(test_guild_id(1), test_user_id(456), 200);
    data.0.add_coins(test_guild_id(2), test_user_id(123), 50);

    // Set some guild configs
    data.0.set_giver_role(test_guild_id(1), Some(test_role_id(789)));
    data.0.set_giver_role(test_guild_id(2), None);

    // Export data
    let (mut balances, mut configs) = data.export_data();

    // Sort by guild_id and user_id to ensure consistent order for testing
    balances.sort_by(|a, b| a.guild_id.cmp(&b.guild_id).then(a.user_id.cmp(&b.user_id)));

    configs.sort_by(|a, b| a.guild_id.cmp(&b.guild_id));

    // Check the exported balances
    assert_eq!(balances.len(), 3);
    assert_eq!(balances[0].guild_id, 1);
    assert_eq!(balances[0].user_id, 123);
    assert_eq!(balances[0].balance, 100);
    assert_eq!(balances[1].guild_id, 1);
    assert_eq!(balances[1].user_id, 456);
    assert_eq!(balances[1].balance, 200);
    assert_eq!(balances[2].guild_id, 2);
    assert_eq!(balances[2].user_id, 123);
    assert_eq!(balances[2].balance, 50);

    // Check the exported configs
    assert_eq!(configs.len(), 2);
    assert_eq!(configs[0].guild_id, 1);
    assert_eq!(configs[0].giver_role_id, Some(789));
    assert_eq!(configs[1].guild_id, 2);
    assert_eq!(configs[1].giver_role_id, None);
}

#[test]
fn test_round_trip_reproduces_records() {
    // export, import into a fresh store, export again: the same multiset of
    // records comes back.
    let mut data = Data::new();
    data.0.add_coins(1, 123, 100);
    data.0.add_coins(1, 456, 200);
    data.0.add_coins(2, 123, 50);
    data.0.remove_coins(2, 777, 5); // a zero-balance entry survives the trip
    data.0.set_giver_role(1, Some(789));
    data.0.set_vote_config(
        2,
        &VoteConfig {
            cooldown_hours: 1,
            duration_minutes: 2,
            min_votes: 3,
            majority_percentage: 40,
        },
    );

    let (mut balances1, mut configs1) = data.export_data();

    let mut fresh = Data::new();
    fresh.import_data(balances1.clone(), configs1.clone());
    let (mut balances2, mut configs2) = fresh.export_data();

    let key = |r: &UserBalance| (r.guild_id, r.user_id);
    balances1.sort_by_key(key);
    balances2.sort_by_key(key);
    assert_eq!(balances1, balances2);

    configs1.sort_by_key(|c: &GuildConfig| c.guild_id);
    configs2.sort_by_key(|c: &GuildConfig| c.guild_id);
    assert_eq!(configs1, configs2);
}

#[test]
fn test_import_is_additive() {
    // Importing does not clear what is already there: records upsert per
    // key and everything else survives.
    let mut data = Data::new();
    data.0.add_coins(1, 123, 10);
    data.0.add_coins(1, 456, 20);

    data.import_data(
        vec![UserBalance {
            guild_id: 1,
            user_id: 123,
            balance: 99,
        }],
        vec![],
    );

    assert_eq!(data.0.get_guild_balance(1, 123), 99); // overwritten
    assert_eq!(data.0.get_guild_balance(1, 456), 20); // untouched
}
