//! Identifier and timestamp sources. Fresh identifiers are random and the
//! clock moves on its own, so nothing useful can be promised of either
//! result; callers state what holds whatever value comes back.

use vstd::prelude::*;

verus! {

/// Relies on uuid::Uuid::new_v4 (and Uuid::as_u128) for a fresh random
/// 128-bit identifier. The result is random, so nothing is promised of it.
#[verifier::external_body]
pub fn fresh_id() -> u128 {
    uuid::Uuid::new_v4().as_u128()
}

/// Relies on chrono::Utc::now (and DateTime::timestamp) for the current
/// time as seconds since the Unix epoch. The clock is outside the program,
/// so nothing is promised of the result.
#[verifier::external_body]
pub fn current_timestamp() -> i64 {
    chrono::Utc::now().timestamp()
}

} // verus!
