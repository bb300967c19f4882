use crate::timestamp::Timestamp;
use chrono::Timelike;
use vstd::prelude::*;

verus! {

/// Relies on chrono's `Local::now`: reads the local wall clock, truncates it
/// to whole seconds with `with_nanosecond(0)` (which always succeeds for a
/// zero nanosecond count), and returns the second count of the naive local
/// date-time relative to 1970-01-01 00:00:00 via `and_utc().timestamp()`.
/// Nothing is assumed of the returned value: the clock may read anything.
#[verifier::external_body]
fn local_clock_secs() -> i64 {
    chrono::Local::now().naive_local().with_nanosecond(0).unwrap().and_utc().timestamp()
}

/// The current local time, truncated to whole seconds. Readings outside the
/// representable range (years 0000 through 9999) are clamped to its nearest
/// end, so the result is always well formed.
pub fn now() -> (t: Timestamp)
    ensures
        t.wf(),
{
    Timestamp::from_clock_secs(local_clock_secs())
}

} // verus!
