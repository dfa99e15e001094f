//! The two calls whose results depend on the process environment: fresh
//! record identifiers and the wall clock.

use vstd::prelude::*;

verus! {

/// Relies on `uuid::Uuid::new_v4` for a fresh random identifier. The value
/// is random: nothing is assumed of it, and two calls may collide.
#[verifier::external_body]
pub(crate) fn fresh_record_id() -> u128 {
    uuid::Uuid::new_v4().as_u128()
}

/// Relies on `chrono::Utc::now` for the wall-clock time in milliseconds
/// since the epoch. The value depends on the clock: nothing is assumed of it.
#[verifier::external_body]
pub(crate) fn current_timestamp_millis() -> i64 {
    chrono::Utc::now().timestamp_millis()
}

} // verus!
