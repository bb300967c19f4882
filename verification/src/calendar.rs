use vstd::prelude::*;

verus! {

// Dates are modelled in the proleptic Gregorian calendar. A "day number" is
// the number of days since 0000-01-01; the library handles the years 0000
// through 9999, that is day numbers 0 through 3652424.

/// Whether `y` is a leap year.
pub open spec fn is_leap_year(y: int) -> bool {
    y % 4 == 0 && (y % 100 != 0 || y % 400 == 0)
}

/// Number of days in year `y`.
pub open spec fn days_in_year(y: int) -> int {
    if is_leap_year(y) {
        366
    } else {
        365
    }
}

/// Number of days from 0000-01-01 up to the first day of year `y`.
pub open spec fn days_before_year(y: int) -> int
    decreases y,
{
    if y <= 0 {
        0
    } else {
        days_before_year(y - 1) + days_in_year(y - 1)
    }
}

/// Number of days in month `m` (1-based) of year `y`.
pub open spec fn days_in_month(y: int, m: int) -> int {
    if m == 2 {
        if is_leap_year(y) {
            29
        } else {
            28
        }
    } else if m == 4 || m == 6 || m == 9 || m == 11 {
        30
    } else {
        31
    }
}

/// Number of days from the first day of year `y` up to the first day of its
/// month `m` (1-based).
pub open spec fn days_before_month(y: int, m: int) -> int
    decreases m,
{
    if m <= 1 {
        0
    } else {
        days_before_month(y, m - 1) + days_in_month(y, m - 1)
    }
}

/// The day number of the calendar date `y`-`m`-`d`.
pub open spec fn day_of_ymd(y: int, m: int, d: int) -> int {
    days_before_year(y) + days_before_month(y, m) + (d - 1)
}

/// Whether `y`-`m`-`d` is a calendar date the library can represent.
pub open spec fn valid_ymd(y: int, m: int, d: int) -> bool {
    &&& 0 <= y <= 9999
    &&& 1 <= m <= 12
    &&& 1 <= d <= days_in_month(y, m)
}

/// Peel whole years off a day count `d`, starting at year `y`.
pub open spec fn split_year_from(d: int, y: int) -> (int, int)
    decreases d,
{
    if 0 <= d - days_in_year(y) {
        split_year_from(d - days_in_year(y), y + 1)
    } else {
        (y, d)
    }
}

/// Peel whole months off a day count `d` within year `y`, starting at month `m`.
pub open spec fn split_month_from(d: int, y: int, m: int) -> (int, int)
    decreases 12 - m,
{
    if m < 12 && d >= days_in_month(y, m) {
        split_month_from(d - days_in_month(y, m), y, m + 1)
    } else {
        (m, d)
    }
}

/// The calendar date of day number `d`.
pub open spec fn ymd_of_day(d: int) -> (int, int, int) {
    let (y, yrem) = split_year_from(d, 0);
    let (m, mrem) = split_month_from(yrem, y, 1);
    (y, m, mrem + 1)
}

pub proof fn lemma_split_year_from(d: int, y: int)
    requires
        0 <= d,
        0 <= y,
    ensures
        ({
            let (ry, rd) = split_year_from(d, y);
            &&& y <= ry
            &&& 0 <= rd < days_in_year(ry)
            &&& days_before_year(ry) + rd == days_before_year(y) + d
        }),
    decreases d,
{
    if 0 <= d - days_in_year(y) {
        lemma_split_year_from(d - days_in_year(y), y + 1);
        assert(days_before_year(y + 1) == days_before_year(y) + days_in_year(y));
    }
}

pub proof fn lemma_days_before_month_13(y: int)
    ensures
        days_before_month(y, 13) == days_in_year(y),
{
    reveal_with_fuel(days_before_month, 14);
}

pub proof fn lemma_split_month_from(d: int, y: int, m: int)
    requires
        1 <= m <= 12,
        0 <= d,
        d < days_before_month(y, 13) - days_before_month(y, m),
    ensures
        ({
            let (rm, rd) = split_month_from(d, y, m);
            &&& m <= rm <= 12
            &&& 0 <= rd < days_in_month(y, rm)
            &&& days_before_month(y, rm) + rd == days_before_month(y, m) + d
        }),
    decreases 12 - m,
{
    if m < 12 && d >= days_in_month(y, m) {
        assert(days_before_month(y, m + 1) == days_before_month(y, m) + days_in_month(y, m));
        lemma_split_month_from(d - days_in_month(y, m), y, m + 1);
    } else if m == 12 {
        assert(days_before_month(y, 13) == days_before_month(y, 12) + days_in_month(y, 12));
    }
}

/// The number of leap years among the years 0 (inclusive) through `y` (exclusive).
pub open spec fn leap_days_before(y: int) -> int {
    (y + 3) / 4 - (y + 99) / 100 + (y + 399) / 400
}

pub proof fn lemma_days_before_year_closed(y: int)
    requires
        0 <= y,
    ensures
        days_before_year(y) == 365 * y + leap_days_before(y),
    decreases y,
{
    if y > 0 {
        lemma_days_before_year_closed(y - 1);
        assert((y + 3) / 4 == (y - 1 + 3) / 4 + (if (y - 1) % 4 == 0 { 1int } else { 0int }));
        assert((y + 99) / 100 == (y - 1 + 99) / 100 + (if (y - 1) % 100 == 0 { 1int } else { 0int }));
        assert((y + 399) / 400 == (y - 1 + 399) / 400 + (if (y - 1) % 400 == 0 { 1int } else { 0int }));
    }
}

pub proof fn lemma_days_before_year_mono(a: int, b: int)
    requires
        0 <= a <= b,
    ensures
        days_before_year(a) + 365 * (b - a) <= days_before_year(b),
    decreases b,
{
    if a < b {
        lemma_days_before_year_mono(a, b - 1);
    }
}

pub proof fn lemma_days_before_month_mono(y: int, a: int, b: int)
    requires
        a <= b,
    ensures
        days_before_month(y, a) <= days_before_month(y, b),
    decreases b - a,
{
    if a < b {
        lemma_days_before_month_mono(y, a, b - 1);
        if b >= 2 {
            assert(days_before_month(y, b) == days_before_month(y, b - 1) + days_in_month(
                y,
                b - 1,
            ));
        }
    }
}

/// Day numbers up to 3652424 (9999-12-31) decompose into a valid date, and
/// that date maps back to the same day number.
pub proof fn lemma_ymd_of_day_roundtrip(d: int)
    requires
        0 <= d <= 3652424,
    ensures
        ({
            let (y, m, dd) = ymd_of_day(d);
            &&& valid_ymd(y, m, dd)
            &&& day_of_ymd(y, m, dd) == d
        }),
{
    lemma_split_year_from(d, 0);
    let (y, yrem) = split_year_from(d, 0);
    if y > 9999 {
        lemma_days_before_year_mono(10000, y);
        lemma_days_before_year_closed(10000);
        assert(days_before_year(10000) == 3652425);
        assert(false);
    }
    lemma_days_before_month_13(y);
    lemma_split_month_from(yrem, y, 1);
}

/// The largest representable day number is 3652424, so every valid date maps
/// to a day number in range.
pub proof fn lemma_day_of_ymd_max(y: int, m: int, d: int)
    requires
        valid_ymd(y, m, d),
    ensures
        0 <= day_of_ymd(y, m, d) <= 3652424,
{
    lemma_days_before_year_mono(0, y);
    lemma_days_before_month_mono(y, 1, m);
    assert(days_before_month(y, m + 1) == days_before_month(y, m) + days_in_month(y, m));
    lemma_days_before_month_mono(y, m + 1, 13);
    lemma_days_before_month_13(y);
    assert(days_before_year(y + 1) == days_before_year(y) + days_in_year(y));
    lemma_days_before_year_mono(y + 1, 10000);
    lemma_days_before_year_closed(10000);
    assert(days_before_year(10000) == 3652425);
    assert(day_of_ymd(y, m, d) <= days_before_year(y) + days_before_month(y, m + 1) - 1);
    assert(day_of_ymd(y, m, d) <= days_before_year(y + 1) - 1);
}

/// Whether `y` is a leap year, computed.
pub fn leap_year(y: u32) -> (r: bool)
    ensures
        r == is_leap_year(y as int),
{
    y % 4 == 0 && (y % 100 != 0 || y % 400 == 0)
}

/// Number of days in year `y`, computed.
pub fn year_length(y: u32) -> (r: u32)
    ensures
        r == days_in_year(y as int),
{
    if leap_year(y) {
        366
    } else {
        365
    }
}

/// Number of days in month `m` of year `y`, computed.
pub fn month_length(y: u32, m: u32) -> (r: u32)
    ensures
        r == days_in_month(y as int, m as int),
{
    if m == 2 {
        if leap_year(y) {
            29
        } else {
            28
        }
    } else if m == 4 || m == 6 || m == 9 || m == 11 {
        30
    } else {
        31
    }
}

/// Number of days before the first day of year `y`, computed by the closed form.
pub fn days_before_year_count(y: u32) -> (r: u32)
    requires
        y <= 10000,
    ensures
        r == days_before_year(y as int),
        r <= 3652425,
{
    proof {
        lemma_days_before_year_closed(y as int);
        lemma_days_before_year_mono(y as int, 10000);
        lemma_days_before_year_closed(10000);
    }
    365 * y + (y + 3) / 4 + (y + 399) / 400 - (y + 99) / 100
}

/// Convert a day number to its calendar date.
pub fn days_to_ymd(d: u32) -> (r: (u32, u32, u32))
    requires
        d <= 3652424,
    ensures
        (r.0 as int, r.1 as int, r.2 as int) == ymd_of_day(d as int),
        valid_ymd(r.0 as int, r.1 as int, r.2 as int),
        day_of_ymd(r.0 as int, r.1 as int, r.2 as int) == d as int,
{
    proof {
        lemma_ymd_of_day_roundtrip(d as int);
        lemma_split_year_from(d as int, 0);
    }
    let mut y: u32 = 0;
    let mut rem: u32 = d;
    while rem >= year_length(y)
        invariant
            d <= 3652424,
            0 <= y <= 9999,
            rem <= d,
            split_year_from(d as int, 0) == split_year_from(rem as int, y as int),
            days_before_year(y as int) + rem == d,
        decreases rem,
    {
        proof {
            assert(days_before_year(y as int + 1) == days_before_year(y as int) + days_in_year(
                y as int,
            ));
            if y as int + 1 > 9999 {
                lemma_days_before_year_mono(10000, y as int + 1);
                lemma_days_before_year_closed(10000);
                assert(false);
            }
        }
        rem = rem - year_length(y);
        y = y + 1;
    }
    proof {
        lemma_days_before_month_13(y as int);
        lemma_split_month_from(rem as int, y as int, 1);
    }
    let ghost yrem = rem as int;
    let mut m: u32 = 1;
    while m < 12 && rem >= month_length(y, m)
        invariant
            0 <= y <= 9999,
            1 <= m <= 12,
            rem < days_in_year(y as int),
            split_month_from(yrem, y as int, 1) == split_month_from(rem as int, y as int, m as int),
            days_before_month(y as int, m as int) + rem == yrem,
        decreases 12 - m,
    {
        proof {
            assert(days_before_month(y as int, m as int + 1) == days_before_month(
                y as int,
                m as int,
            ) + days_in_month(y as int, m as int));
        }
        rem = rem - month_length(y, m);
        m = m + 1;
    }
    (y, m, rem + 1)
}

/// Convert a calendar date to its day number.
pub fn ymd_to_day(y: u32, m: u32, d: u32) -> (r: u32)
    requires
        valid_ymd(y as int, m as int, d as int),
    ensures
        r as int == day_of_ymd(y as int, m as int, d as int),
        r <= 3652424,
{
    proof {
        lemma_day_of_ymd_max(y as int, m as int, d as int);
    }
    let mut acc: u32 = days_before_year_count(y);
    let mut mm: u32 = 1;
    while mm < m
        invariant
            1 <= mm <= m,
            valid_ymd(y as int, m as int, d as int),
            acc == days_before_year(y as int) + days_before_month(y as int, mm as int),
            acc + days_before_month(y as int, m as int) - days_before_month(y as int, mm as int)
                + d - 1 <= 3652424,
        decreases m - mm,
    {
        proof {
            assert(days_before_month(y as int, mm as int + 1) == days_before_month(
                y as int,
                mm as int,
            ) + days_in_month(y as int, mm as int));
            lemma_days_before_month_mono(y as int, mm as int + 1, m as int);
        }
        acc = acc + month_length(y, mm);
        mm = mm + 1;
    }
    acc + (d - 1)
}

} // verus!
