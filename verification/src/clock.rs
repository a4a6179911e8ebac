//! The wall clock.

use vstd::prelude::*;

verus! {

/// Reads the wall clock: `chrono::Utc::now()`, taken as whole milliseconds
/// since the Unix epoch by `DateTime::timestamp_millis`. The contract
/// claims only that the reading is not negative: `Utc::now` refuses a
/// system time before the epoch. Nothing relates two readings.
#[verifier::external_body]
pub(crate) fn now_millis() -> (r: i64)
    ensures
        0 <= r,
{
    chrono::Utc::now().timestamp_millis()
}

} // verus!
