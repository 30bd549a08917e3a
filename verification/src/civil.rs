//! Proleptic Gregorian calendar arithmetic: decomposing a day number
//! (days since 1970-01-01) into year, month and day-of-month, and the
//! weekday of a day number.

use vstd::prelude::*;

verus! {

/// Gregorian leap-year rule.
pub open spec fn is_leap_year(y: int) -> bool {
    y % 4 == 0 && (y % 100 != 0 || y % 400 == 0)
}

/// Length of a year in days.
pub open spec fn days_in_year(y: int) -> int {
    if is_leap_year(y) {
        366
    } else {
        365
    }
}

/// Days from 1970-01-01 to the first day of year `y` (for `y >= 1970`).
pub open spec fn days_before_year(y: int) -> int
    decreases y - 1970
        when y >= 1970
{
    if y <= 1970 {
        0
    } else {
        days_before_year(y - 1) + days_in_year(y - 1)
    }
}

/// Length of month `m` (1-based) of year `y` in days.
pub open spec fn days_in_month(y: int, m: int) -> int {
    if m == 2 {
        if is_leap_year(y) {
            29
        } else {
            28
        }
    } else if m == 4 || m == 6 || m == 9 || m == 11 {
        30
    } else {
        31
    }
}

/// Days from the first day of year `y` to the first day of its month `m`.
pub open spec fn days_before_month(y: int, m: int) -> int
    decreases m
        when m >= 1
{
    if m <= 1 {
        0
    } else {
        days_before_month(y, m - 1) + days_in_month(y, m - 1)
    }
}

/// A calendar date the model admits.
pub open spec fn valid_civil(y: int, m: int, d: int) -> bool {
    &&& y >= 1970
    &&& 1 <= m <= 12
    &&& 1 <= d <= days_in_month(y, m)
}

/// The day number of a calendar date.
pub open spec fn days_from_civil(y: int, m: int, d: int) -> int {
    days_before_year(y) + days_before_month(y, m) + (d - 1)
}

/// The calendar date of a day number: the unique valid date mapping back
/// to it.
pub open spec fn civil_of_day(day: int) -> (int, int, int) {
    choose|c: (int, int, int)|
        valid_civil(c.0, c.1, c.2) && days_from_civil(c.0, c.1, c.2) == day
}

/// The weekday of a day number: 0 is Sunday through 6 is Saturday
/// (1970-01-01 was a Thursday).
pub open spec fn weekday_of_day(day: int) -> int {
    (day + 4) % 7
}

/// The months of a year exactly fill it.
proof fn lemma_year_filled(y: int)
    ensures
        days_before_month(y, 13) == days_in_year(y),
{
    reveal_with_fuel(days_before_month, 14);
}

/// `days_before_month` grows with the month and stays within the year.
proof fn lemma_days_before_month_bound(y: int, m: int)
    requires
        1 <= m <= 12,
    ensures
        0 <= days_before_month(y, m),
        days_before_month(y, m) + days_in_month(y, m) <= days_in_year(y),
    decreases 13 - m,
{
    lemma_year_filled(y);
    assert forall|k: int| 1 <= k <= 12 implies #[trigger] days_before_month(y, k) >= 0 by {
        lemma_days_before_month_nonneg(y, k);
    }
    // Walk from m up to 12: each later month only adds days.
    lemma_days_before_month_mono(y, m + 1, 13);
}

/// `days_before_month` is non-negative.
proof fn lemma_days_before_month_nonneg(y: int, m: int)
    requires
        1 <= m,
    ensures
        days_before_month(y, m) >= 0,
    decreases m,
{
    if m > 1 {
        lemma_days_before_month_nonneg(y, m - 1);
    }
}

/// `days_before_month` is monotone in the month.
proof fn lemma_days_before_month_mono(y: int, m1: int, m2: int)
    requires
        1 <= m1 <= m2,
    ensures
        days_before_month(y, m1) <= days_before_month(y, m2),
    decreases m2 - m1,
{
    if m1 < m2 {
        lemma_days_before_month_mono(y, m1, m2 - 1);
    }
}

/// `days_before_year` is monotone: a later year starts no earlier.
proof fn lemma_days_before_year_mono(y1: int, y2: int)
    requires
        1970 <= y1 <= y2,
    ensures
        days_before_year(y1) + (y2 - y1) * 365 <= days_before_year(y2),
    decreases y2 - y1,
{
    if y1 < y2 {
        lemma_days_before_year_mono(y1, y2 - 1);
        assert((y2 - y1) * 365 == (y2 - 1 - y1) * 365 + 365) by (nonlinear_arith);
    }
}

/// A valid date's day number stays within its year.
proof fn lemma_day_number_within_year(y: int, m: int, d: int)
    requires
        valid_civil(y, m, d),
    ensures
        days_before_year(y) <= days_from_civil(y, m, d) < days_before_year(y) + days_in_year(y),
{
    lemma_days_before_month_bound(y, m);
}

/// No two distinct valid dates share a day number.
proof fn lemma_civil_unique(y1: int, m1: int, d1: int, y2: int, m2: int, d2: int)
    requires
        valid_civil(y1, m1, d1),
        valid_civil(y2, m2, d2),
        days_from_civil(y1, m1, d1) == days_from_civil(y2, m2, d2),
    ensures
        y1 == y2 && m1 == m2 && d1 == d2,
{
    lemma_day_number_within_year(y1, m1, d1);
    lemma_day_number_within_year(y2, m2, d2);
    if y1 < y2 {
        lemma_days_before_year_mono(y1 + 1, y2);
        assert(days_before_year(y1) + days_in_year(y1) == days_before_year(y1 + 1));
        assert((y2 - y1 - 1) * 365 >= 0) by (nonlinear_arith)
            requires
                y2 - y1 - 1 >= 0,
        ;
        assert(false);
    }
    if y2 < y1 {
        lemma_days_before_year_mono(y2 + 1, y1);
        assert(days_before_year(y2) + days_in_year(y2) == days_before_year(y2 + 1));
        assert((y1 - y2 - 1) * 365 >= 0) by (nonlinear_arith)
            requires
                y1 - y2 - 1 >= 0,
        ;
        assert(false);
    }
    if m1 < m2 {
        lemma_days_before_month_mono(y1, m1 + 1, m2);
        assert(false);
    }
    if m2 < m1 {
        lemma_days_before_month_mono(y1, m2 + 1, m1);
        assert(false);
    }
}

/// Length of year `y` on machine integers.
fn year_days(y: i64) -> (n: i64)
    requires
        1970 <= y <= 12000,
    ensures
        n == days_in_year(y as int),
{
    if y % 4 == 0 && (y % 100 != 0 || y % 400 == 0) {
        366
    } else {
        365
    }
}

/// Length of month `m` of year `y` on machine integers.
fn month_days(y: i64, m: u8) -> (n: i64)
    requires
        1970 <= y <= 12000,
        1 <= m <= 12,
    ensures
        n == days_in_month(y as int, m as int),
{
    if m == 2 {
        if y % 4 == 0 && (y % 100 != 0 || y % 400 == 0) {
            29
        } else {
            28
        }
    } else if m == 4 || m == 6 || m == 9 || m == 11 {
        30
    } else {
        31
    }
}

/// Decomposes a day number into the unique calendar date it falls on.
pub fn civil_from_days(days: i64) -> (r: (i64, u8, u8))
    requires
        0 <= days <= 3_000_000,
    ensures
        valid_civil(r.0 as int, r.1 as int, r.2 as int),
        days_from_civil(r.0 as int, r.1 as int, r.2 as int) == days,
        (r.0 as int, r.1 as int, r.2 as int) == civil_of_day(days as int),
{
    let mut y: i64 = 1970;
    let mut rem: i64 = days;
    let mut ylen: i64 = year_days(y);
    while rem >= ylen
        invariant
            1970 <= y <= 12000,
            365 * (y as int - 1970) <= days_before_year(y as int),
            days_before_year(y as int) + rem == days,
            0 <= days <= 3_000_000,
            0 <= rem,
            ylen == days_in_year(y as int),
        decreases rem,
    {
        rem = rem - ylen;
        y = y + 1;
        proof {
            assert(365 * (y as int - 1970) == 365 * (y as int - 1 - 1970) + 365);
        }
        ylen = year_days(y);
    }
    let mut m: u8 = 1;
    let mut mlen: i64 = month_days(y, m);
    proof {
        lemma_year_filled(y as int);
    }
    while rem >= mlen
        invariant
            1970 <= y <= 12000,
            1 <= m <= 12,
            days_before_year(y as int) + days_before_month(y as int, m as int) + rem == days,
            0 <= rem,
            days_before_month(y as int, m as int) + rem < days_in_year(y as int),
            mlen == days_in_month(y as int, m as int),
        decreases rem,
    {
        proof {
            if m == 12 {
                lemma_year_filled(y as int);
                assert(days_before_month(y as int, 13) == days_before_month(y as int, 12)
                    + days_in_month(y as int, 12));
                assert(false);
            }
        }
        rem = rem - mlen;
        m = m + 1;
        mlen = month_days(y, m);
    }
    let d: u8 = (rem + 1) as u8;
    proof {
        let c = civil_of_day(days as int);
        assert(valid_civil(y as int, m as int, d as int));
        assert(days_from_civil(y as int, m as int, d as int) == days);
        assert(valid_civil(c.0, c.1, c.2) && days_from_civil(c.0, c.1, c.2) == days as int) by {
            assert(exists|c: (int, int, int)|
                valid_civil(c.0, c.1, c.2) && days_from_civil(c.0, c.1, c.2) == days as int) by {
                let w = (y as int, m as int, d as int);
                assert(valid_civil(w.0, w.1, w.2) && days_from_civil(w.0, w.1, w.2) == days as int);
            }
        }
        lemma_civil_unique(y as int, m as int, d as int, c.0, c.1, c.2);
    }
    (y, m, d)
}

/// The weekday of a day number on machine integers.
pub fn weekday_from_days(days: i64) -> (w: u8)
    requires
        0 <= days <= 3_000_000,
    ensures
        w as int == weekday_of_day(days as int),
        w < 7,
{
    ((days + 4) % 7) as u8
}

} // verus!
