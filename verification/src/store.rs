use crate::clock::now;
use crate::codec::store_wf;
use crate::domain::Interval;
use crate::timestamp::{same_calendar_day, Timestamp};
use vstd::prelude::*;

verus! {

/// Append a freshly opened interval, starting at the moment `now`.
pub fn start_command_at(intervals: &mut Vec<Interval>, now: Timestamp)
    requires
        now.wf(),
    ensures
        final(intervals)@ == old(intervals)@.push(Interval { start: now, stop: None }),
{
    intervals.push(Interval { start: now, stop: None });
}

/// Append a freshly opened interval, starting at the present clock reading.
/// The intervals already recorded are untouched.
pub fn start_command(intervals: &mut Vec<Interval>)
    ensures
        final(intervals)@.len() == old(intervals)@.len() + 1,
        final(intervals)@.subrange(0, old(intervals)@.len() as int) == old(intervals)@,
        final(intervals)@.last().stop is None,
        final(intervals)@.last().start.wf(),
{
    let n = now();
    start_command_at(intervals, n);
    proof {
        assert(intervals@.subrange(0, old(intervals)@.len() as int) =~= old(intervals)@);
    }
}

/// Close the last interval of the store at the moment `now`. An empty store
/// and a last interval from another calendar day are both refused, and the
/// store is then left exactly as it was.
pub fn stop_command_at(intervals: &mut Vec<Interval>, now: Timestamp) -> (r: Result<(), String>)
    requires
        store_wf(old(intervals)@),
        now.wf(),
    ensures
        store_wf(final(intervals)@),
        old(intervals)@.len() == 0 ==> {
            &&& r matches Err(m) && m@ == "no_intervals_found"@
            &&& final(intervals)@ == old(intervals)@
        },
        old(intervals)@.len() > 0 ==> {
            let last = old(intervals)@.last();
            &&& same_calendar_day(last.start.secs as int, now.secs as int) ==> {
                &&& r is Ok
                &&& final(intervals)@ == old(intervals)@.update(
                    old(intervals)@.len() - 1,
                    Interval { start: last.start, stop: Some(now) },
                )
            }
            &&& !same_calendar_day(last.start.secs as int, now.secs as int) ==> {
                &&& r matches Err(m) && m@ == "interval_not_from_today"@
                &&& final(intervals)@ == old(intervals)@
            }
        },
{
    match intervals.pop() {
        None => Err("no_intervals_found".to_owned()),
        Some(last) => {
            proof {
                assert(last == old(intervals)@.last());
            }
            match last.end_iteration_at(now) {
                Ok(closed) => {
                    intervals.push(closed);
                    proof {
                        assert(intervals@ =~= old(intervals)@.update(
                            old(intervals)@.len() - 1,
                            Interval { start: last.start, stop: Some(now) },
                        ));
                    }
                    Ok(())
                },
                Err(message) => {
                    intervals.push(last);
                    proof {
                        assert(intervals@ =~= old(intervals)@);
                    }
                    Err(message)
                },
            }
        },
    }
}

/// Close the last interval of the store at the present clock reading. On
/// success the last interval is replaced by its closed copy; on failure the
/// store is left exactly as it was, with the error naming the reason.
pub fn stop_command(intervals: &mut Vec<Interval>) -> (r: Result<(), String>)
    requires
        store_wf(old(intervals)@),
    ensures
        store_wf(final(intervals)@),
        old(intervals)@.len() == 0 ==> {
            &&& r matches Err(m) && m@ == "no_intervals_found"@
            &&& final(intervals)@ == old(intervals)@
        },
        old(intervals)@.len() > 0 ==> {
            let last = old(intervals)@.last();
            &&& r is Ok ==> exists|n: Timestamp|
                {
                    &&& #[trigger] n.wf()
                    &&& same_calendar_day(last.start.secs as int, n.secs as int)
                    &&& final(intervals)@ == old(intervals)@.update(
                        old(intervals)@.len() - 1,
                        Interval { start: last.start, stop: Some(n) },
                    )
                }
            &&& r is Err ==> {
                &&& r->Err_0@ == "interval_not_from_today"@
                &&& final(intervals)@ == old(intervals)@
            }
        },
{
    let ghost orig = intervals@;
    let n = now();
    let r = stop_command_at(intervals, n);
    proof {
        if orig.len() > 0 && r is Ok {
            let last = orig.last();
            assert(n.wf() && same_calendar_day(last.start.secs as int, n.secs as int)
                && intervals@ == orig.update(
                orig.len() - 1,
                Interval { start: last.start, stop: Some(n) },
            ));
        }
    }
    r
}

} // verus!
