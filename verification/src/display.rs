use crate::clock::now;
use crate::domain::{lunch_secs, Interval};
use crate::duration::{duration_text, format_duration, Duration};
use crate::timestamp::{timestamp_text, ts_text, Timestamp};
use vstd::prelude::*;

verus! {

/// One row of the console listing: every field already rendered as text.
#[derive(Clone, Debug, PartialEq, Eq)]
pub struct DisplayInterval {
    pub start: String,
    pub stop: String,
    pub duration: String,
    pub duration_with_lunch_break: String,
}

/// Whether `row` renders `iv` against the moment `now`: timestamps as
/// `YYYY-MM-DD HH:MM:SS` (an open interval's stop as the empty text), and
/// both durations as `HH:MM:SS` clock text.
pub open spec fn display_matches(
    row: DisplayInterval,
    iv: Interval,
    lunch: Option<Duration>,
    now: Timestamp,
) -> bool {
    &&& row.start@ == ts_text(iv.start.secs as int)
    &&& (match iv.stop {
        Some(t) => row.stop@ == ts_text(t.secs as int),
        None => row.stop@ == Seq::<char>::empty(),
    })
    &&& row.duration@ == duration_text(iv.duration_secs_at(now))
    &&& row.duration_with_lunch_break@ == duration_text(
        iv.duration_with_lunch_secs_at(lunch, now),
    )
}

impl DisplayInterval {
    /// Render one interval against the moment `now`.
    pub fn from_interval_at(interval: &Interval, lunch_break: Option<Duration>, now: Timestamp) -> (r:
        DisplayInterval)
        requires
            interval.wf(),
            now.wf(),
            i64::MIN <= interval.duration_with_lunch_secs_at(lunch_break, now) <= i64::MAX,
        ensures
            display_matches(r, *interval, lunch_break, now),
    {
        let stop_text = match interval.stop {
            Some(t) => timestamp_text(&t),
            None => String::new(),
        };
        DisplayInterval {
            start: timestamp_text(&interval.start),
            stop: stop_text,
            duration: format_duration(&interval.calculate_duration_at(now)),
            duration_with_lunch_break: format_duration(
                &interval.calculate_duration_with_lunch_break_at(lunch_break, now),
            ),
        }
    }

    /// Render one interval against the present clock reading. A closed
    /// interval's row does not depend on the clock.
    pub fn from_interval(interval: &Interval, lunch_break: Option<Duration>) -> (r:
        DisplayInterval)
        requires
            interval.wf(),
            forall|n: Timestamp|
                #[trigger] n.wf() ==> i64::MIN <= interval.duration_with_lunch_secs_at(
                    lunch_break,
                    n,
                ) <= i64::MAX,
        ensures
            exists|n: Timestamp| #[trigger] n.wf() && display_matches(r, *interval, lunch_break, n),
            interval.stop matches Some(t) ==> {
                &&& r.start@ == ts_text(interval.start.secs as int)
                &&& r.stop@ == ts_text(t.secs as int)
                &&& r.duration@ == duration_text(t.secs - interval.start.secs)
                &&& r.duration_with_lunch_break@ == duration_text(
                    t.secs - interval.start.secs - lunch_secs(lunch_break),
                )
            },
    {
        let n = now();
        let r = DisplayInterval::from_interval_at(interval, lunch_break, n);
        proof {
            assert(n.wf() && display_matches(r, *interval, lunch_break, n));
        }
        r
    }

    /// Render a whole store against the moment `now`, in store order.
    pub fn from_intervals_at(
        intervals: &Vec<Interval>,
        lunch_break: Option<Duration>,
        now: Timestamp,
    ) -> (r: Vec<DisplayInterval>)
        requires
            crate::codec::store_wf(intervals@),
            now.wf(),
            forall|i: int|
                0 <= i < intervals@.len() ==> i64::MIN <= (
                #[trigger] intervals@[i]).duration_with_lunch_secs_at(lunch_break, now)
                    <= i64::MAX,
        ensures
            r@.len() == intervals@.len(),
            forall|i: int|
                0 <= i < r@.len() ==> display_matches(
                    #[trigger] r@[i],
                    intervals@[i],
                    lunch_break,
                    now,
                ),
    {
        let mut rows: Vec<DisplayInterval> = Vec::new();
        let mut k: usize = 0;
        while k < intervals.len()
            invariant
                crate::codec::store_wf(intervals@),
                now.wf(),
                forall|i: int|
                    0 <= i < intervals@.len() ==> i64::MIN <= (
                    #[trigger] intervals@[i]).duration_with_lunch_secs_at(lunch_break, now)
                        <= i64::MAX,
                k <= intervals@.len(),
                rows@.len() == k,
                forall|i: int|
                    0 <= i < k as int ==> display_matches(
                        #[trigger] rows@[i],
                        intervals@[i],
                        lunch_break,
                        now,
                    ),
            decreases intervals@.len() - k,
        {
            let row = DisplayInterval::from_interval_at(&intervals[k], lunch_break, now);
            rows.push(row);
            k = k + 1;
        }
        rows
    }

    /// Render a whole store against the present clock reading, in store
    /// order: one row for each interval.
    pub fn from_intervals(intervals: Vec<Interval>, lunch_break: Option<Duration>) -> (r: Vec<
        DisplayInterval,
    >)
        requires
            crate::codec::store_wf(intervals@),
            forall|i: int, n: Timestamp|
                0 <= i < intervals@.len() && #[trigger] n.wf() ==> i64::MIN <= (
                #[trigger] intervals@[i]).duration_with_lunch_secs_at(lunch_break, n) <= i64::MAX,
        ensures
            r@.len() == intervals@.len(),
            exists|n: Timestamp|
                #[trigger] n.wf() && forall|i: int|
                    0 <= i < r@.len() ==> display_matches(
                        #[trigger] r@[i],
                        intervals@[i],
                        lunch_break,
                        n,
                    ),
    {
        let n = now();
        let r = DisplayInterval::from_intervals_at(&intervals, lunch_break, n);
        proof {
            assert(n.wf() && forall|i: int|
                0 <= i < r@.len() ==> display_matches(
                    #[trigger] r@[i],
                    intervals@[i],
                    lunch_break,
                    n,
                ));
        }
        r
    }
}

} // verus!
