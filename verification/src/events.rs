//! The structured events the store reports to the log sink. The sink itself
//! is outside the library; these functions build the event records, and the
//! caller emits them as fire-and-forget notifications.

use vstd::prelude::*;

verus! {

broadcast use vstd::string::to_string_from_display_ensures_for_str;

/// One executed command, with its outcome.
pub struct CommandEvent {
    pub command: String,
    pub guild_id: Option<u64>,
    pub user_id: u64,
    pub arguments: String,
    pub success: bool,
}

/// One balance change, with the signed difference it caused.
pub struct BalanceEvent {
    pub guild_id: u64,
    pub user_id: u64,
    pub previous_balance: u32,
    pub new_balance: u32,
    pub change: i64,
    pub reason: String,
    pub initiator_id: Option<u64>,
}

/// Record a command execution for the log sink.
pub fn log_command(
    command_name: &str,
    guild_id: Option<u64>,
    user_id: u64,
    args: &str,
    success: bool,
) -> (r: CommandEvent)
    ensures
        r.command@ == command_name@,
        r.guild_id == guild_id,
        r.user_id == user_id,
        r.arguments@ == args@,
        r.success == success,
{
    CommandEvent {
        command: command_name.to_string(),
        guild_id,
        user_id,
        arguments: args.to_string(),
        success,
    }
}

/// Record a balance change for the log sink: the change is exactly the new
/// balance minus the previous one.
pub fn log_balance_change(
    guild_id: u64,
    user_id: u64,
    previous_balance: u32,
    new_balance: u32,
    reason: &str,
    initiator_id: Option<u64>,
) -> (r: BalanceEvent)
    ensures
        r.guild_id == guild_id,
        r.user_id == user_id,
        r.previous_balance == previous_balance,
        r.new_balance == new_balance,
        r.change == new_balance as i64 - previous_balance as i64,
        r.reason@ == reason@,
        r.initiator_id == initiator_id,
{
    let change: i64 = new_balance as i64 - previous_balance as i64;
    BalanceEvent {
        guild_id,
        user_id,
        previous_balance,
        new_balance,
        change,
        reason: reason.to_string(),
        initiator_id,
    }
}

} // verus!
