use crate::clock::now;
use crate::duration::Duration;
use crate::timestamp::{same_calendar_day, Timestamp};
use vstd::prelude::*;

verus! {

/// One work session: opened at `start`, and either still open (`stop` is
/// `None`) or closed at `stop`.
#[derive(Clone, Copy, Debug, PartialEq, Eq)]
pub struct Interval {
    pub start: Timestamp,
    pub stop: Option<Timestamp>,
}

/// The seconds counted by a lunch break option: an absent lunch break counts
/// as zero.
pub open spec fn lunch_secs(lunch: Option<Duration>) -> int {
    match lunch {
        Some(l) => l.secs as int,
        None => 0,
    }
}

impl Interval {
    /// Both endpoints lie in the representable range.
    pub open spec fn wf(&self) -> bool {
        &&& self.start.wf()
        &&& match self.stop {
            Some(t) => t.wf(),
            None => true,
        }
    }

    /// The seconds elapsed from `start` to `stop`, or to the moment `now`
    /// while the interval is open.
    pub open spec fn duration_secs_at(&self, now: Timestamp) -> int {
        (match self.stop {
            Some(t) => t.secs as int,
            None => now.secs as int,
        }) - self.start.secs
    }

    /// The elapsed seconds net of a lunch break; no floor is applied, so a
    /// lunch break longer than the elapsed time yields a negative count.
    pub open spec fn duration_with_lunch_secs_at(
        &self,
        lunch: Option<Duration>,
        now: Timestamp,
    ) -> int {
        self.duration_secs_at(now) - lunch_secs(lunch)
    }

    /// The duration elapsed from `start` to `stop`, or to the given moment
    /// `now` while the interval is open.
    pub fn calculate_duration_at(&self, now: Timestamp) -> (d: Duration)
        requires
            self.wf(),
            now.wf(),
        ensures
            d.secs == self.duration_secs_at(now),
    {
        let end = match self.stop {
            Some(t) => t,
            None => now,
        };
        Duration { secs: end.secs - self.start.secs }
    }

    /// The duration elapsed so far: exactly `stop - start` once the interval
    /// is closed, and the time elapsed up to the present clock reading while
    /// it is open.
    pub fn calculate_duration(&self) -> (d: Duration)
        requires
            self.wf(),
        ensures
            self.stop matches Some(t) ==> d.secs == t.secs - self.start.secs,
            self.stop is None ==> exists|n: Timestamp|
                #[trigger] n.wf() && d.secs == self.duration_secs_at(n),
    {
        let n = now();
        let d = self.calculate_duration_at(n);
        proof {
            if self.stop is None {
                assert(n.wf() && d.secs == self.duration_secs_at(n));
            }
        }
        d
    }

    /// The elapsed duration net of a lunch break, against the given moment.
    pub fn calculate_duration_with_lunch_break_at(
        &self,
        lunch_break_duration: Option<Duration>,
        now: Timestamp,
    ) -> (d: Duration)
        requires
            self.wf(),
            now.wf(),
            i64::MIN <= self.duration_with_lunch_secs_at(lunch_break_duration, now) <= i64::MAX,
        ensures
            d.secs == self.duration_with_lunch_secs_at(lunch_break_duration, now),
    {
        let base = self.calculate_duration_at(now);
        match lunch_break_duration {
            Some(l) => Duration { secs: base.secs - l.secs },
            None => base,
        }
    }

    /// The elapsed duration net of a lunch break, against the present clock
    /// reading.
    pub fn calculate_duration_with_lunch_break(
        &self,
        lunch_break_duration: Option<Duration>,
    ) -> (d: Duration)
        requires
            self.wf(),
            forall|n: Timestamp|
                #[trigger] n.wf() ==> i64::MIN <= self.duration_with_lunch_secs_at(
                    lunch_break_duration,
                    n,
                ) <= i64::MAX,
        ensures
            self.stop matches Some(t) ==> d.secs == t.secs - self.start.secs - lunch_secs(
                lunch_break_duration,
            ),
            self.stop is None ==> exists|n: Timestamp|
                #[trigger] n.wf() && d.secs == self.duration_with_lunch_secs_at(
                    lunch_break_duration,
                    n,
                ),
    {
        let n = now();
        let d = self.calculate_duration_with_lunch_break_at(lunch_break_duration, n);
        proof {
            if self.stop is None {
                assert(n.wf() && d.secs == self.duration_with_lunch_secs_at(
                    lunch_break_duration,
                    n,
                ));
            }
        }
        d
    }

    /// Close this interval at the moment `now`: succeeds exactly when the
    /// interval started on the same calendar day, and then keeps `start` and
    /// stamps `stop = now`. A stale interval is left for the user to mend and
    /// the error text names the reason.
    pub fn end_iteration_at(&self, now: Timestamp) -> (r: Result<Interval, String>)
        requires
            self.start.wf(),
            now.wf(),
        ensures
            r is Ok <==> same_calendar_day(self.start.secs as int, now.secs as int),
            r matches Ok(iv) ==> iv == (Interval { start: self.start, stop: Some(now) }),
            r matches Err(m) ==> m@ == "interval_not_from_today"@,
    {
        if self.start.day_number() == now.day_number() {
            Ok(Interval { start: self.start, stop: Some(now) })
        } else {
            Err("interval_not_from_today".to_owned())
        }
    }

    /// Close this interval at the present clock reading: succeeds exactly
    /// when the interval started on the clock's current calendar day.
    pub fn end_iteration(&self) -> (r: Result<Interval, String>)
        requires
            self.start.wf(),
        ensures
            r matches Ok(iv) ==> {
                &&& iv.start == self.start
                &&& iv.stop matches Some(t) && t.wf() && same_calendar_day(
                    self.start.secs as int,
                    t.secs as int,
                )
            },
            r matches Err(m) ==> m@ == "interval_not_from_today"@,
    {
        let n = now();
        self.end_iteration_at(n)
    }
}

/// A closed interval's duration does not depend on the clock: it is exactly
/// `stop - start` whatever moment it is evaluated against.
pub proof fn lemma_closed_duration_constant(iv: Interval, n1: Timestamp, n2: Timestamp)
    requires
        iv.stop is Some,
    ensures
        iv.duration_secs_at(n1) == iv.stop->0.secs - iv.start.secs,
        iv.duration_secs_at(n1) == iv.duration_secs_at(n2),
{
}

/// An open interval's duration grows exactly with the clock: evaluating it
/// at two moments changes it by exactly the seconds between them, so it is
/// non-decreasing as time passes.
pub proof fn lemma_open_duration_tracks_clock(iv: Interval, n1: Timestamp, n2: Timestamp)
    requires
        iv.stop is None,
    ensures
        iv.duration_secs_at(n2) - iv.duration_secs_at(n1) == n2.secs - n1.secs,
        n1.secs <= n2.secs ==> iv.duration_secs_at(n1) <= iv.duration_secs_at(n2),
{
}

/// An absent lunch break deducts nothing: the net duration equals the plain
/// duration for any interval, at any moment.
pub proof fn lemma_no_lunch_break_deducts_nothing(iv: Interval, n: Timestamp)
    ensures
        iv.duration_with_lunch_secs_at(None, n) == iv.duration_secs_at(n),
{
}

/// A lunch break of `l` deducts exactly `l`, for any `l` — including one
/// longer than the elapsed time, which leaves a negative net duration.
pub proof fn lemma_lunch_break_deducts_exactly(iv: Interval, l: Duration, n: Timestamp)
    ensures
        iv.duration_with_lunch_secs_at(Some(l), n) == iv.duration_secs_at(n) - l.secs,
{
}

/// A lunch break longer than the elapsed time leaves a negative net
/// duration: no floor is applied and no error is raised.
pub proof fn lemma_excess_lunch_break_goes_negative(iv: Interval, l: Duration, n: Timestamp)
    requires
        l.secs > iv.duration_secs_at(n),
    ensures
        iv.duration_with_lunch_secs_at(Some(l), n) < 0,
{
}

/// A start lying a full day or more before the clock's reading cannot share
/// its calendar day, so closing such an interval fails.
pub proof fn lemma_stale_start_not_same_day(start: int, now: int)
    requires
        now - start >= 86400,
    ensures
        !same_calendar_day(start, now),
{
    let a = start + crate::timestamp::EPOCH_OFFSET_SECS;
    let b = now + crate::timestamp::EPOCH_OFFSET_SECS;
    vstd::arithmetic::div_mod::lemma_fundamental_div_mod(a, 86400);
    vstd::arithmetic::div_mod::lemma_fundamental_div_mod(b, 86400);
}

} // verus!
