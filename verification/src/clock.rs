//! The one place the library reads the wall clock. Every vote transition is
//! verified against an explicit `now` argument; these functions only supply
//! that argument, so nothing is promised about what they return.

use vstd::prelude::*;

verus! {

/// Relies on `chrono::Utc::now` and `DateTime::timestamp`: the machine's
/// current Unix time in whole seconds, negative before 1970. Nothing can be
/// promised of a clock reading.
#[verifier::external_body]
fn now_unix_seconds() -> i64 {
    chrono::Utc::now().timestamp()
}

/// The current Unix time in whole seconds, clamped to zero for clocks set
/// before 1970; the value the vote transitions run against when the caller
/// does not supply one.
pub fn current_time_seconds() -> u64 {
    let t = now_unix_seconds();
    if t < 0 {
        0
    } else {
        t as u64
    }
}

} // verus!
