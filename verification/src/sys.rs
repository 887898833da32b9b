//! Identifier and clock sources. Both results depend on the environment, so
//! their contracts promise almost nothing; callers state what holds of every
//! outcome.

use vstd::prelude::*;

verus! {

/// Relies on uuid's `Uuid::new_v4` and its `Display` impl: a random
/// identifier printed in the 36-character hyphenated form. The value is
/// random, so only its length is stated.
#[verifier::external_body]
pub(crate) fn fresh_id() -> (r: String)
    ensures
        r@.len() == 36,
{
    uuid::Uuid::new_v4().to_string()
}

/// Relies on chrono's `Utc::now` and `DateTime::timestamp_millis`: the
/// current wall-clock time in milliseconds. The value depends on the clock,
/// so nothing is promised of it.
#[verifier::external_body]
pub(crate) fn now_ts() -> (t: i64) {
    chrono::Utc::now().timestamp_millis()
}

} // verus!
