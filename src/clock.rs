//! The wall clock.
use vstd::prelude::*;

verus! {

/// Relies on chrono's `Utc::now` and `DateTime::timestamp_millis`: the current
/// time as milliseconds since the Unix epoch. `Utc::now` panics on a system
/// time before the Unix epoch, so a reading that comes back is not negative.
/// Nothing else is known of it: two readings may differ in any way.
#[verifier::external_body]
pub(crate) fn now_millis() -> (r: i64)
    ensures
        r >= 0,
{
    chrono::Utc::now().timestamp_millis()
}

} // verus!
