//! The time of day.
use vstd::prelude::*;

verus! {

/// The milliseconds are a reading of the clock, which counts from the Unix epoch. Outside this
/// module nothing but `now_millis` gives one.
pub closed spec fn is_reading(millis: i64) -> bool {
    0 <= millis
}

/// A reading of the clock is not before the epoch.
pub proof fn law_reading_is_not_before_epoch(millis: i64)
    requires
        is_reading(millis),
    ensures
        0 <= millis,
{
}

/// Calls `chrono::Utc::now` and, on what it returns, `timestamp_millis`: the milliseconds since
/// the Unix epoch by the clock of the machine. Of the value it is claimed that it is such a reading
/// and so not negative; which one depends on that clock alone. The call panics where the clock
/// stands before the epoch or beyond the dates that `chrono` can hold, which no precondition can
/// rule out.
#[verifier::external_body]
pub(crate) fn now_millis() -> (millis: i64)
    ensures
        is_reading(millis),
{
    chrono::Utc::now().timestamp_millis()
}

} // verus!
