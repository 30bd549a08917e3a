//! Rendering of merged slots as human-readable text: weekday, date, and a
//! 12-hour clock range with minutes shown only when non-zero.

use vstd::prelude::*;
use vstd::string::StringExecFns;
use crate::civil::{civil_of_day, civil_from_days, weekday_of_day, weekday_from_days};
use crate::interval::{
    Interval, local_day, local_day_of, local_in_range, local_tod, local_tod_of, valid_interval,
    valid_offset, instant_in_range, SECS_PER_DAY, MAX_INSTANT,
};

verus! {

/// The decimal digit character for `d`.
pub open spec fn digit_char(d: int) -> char {
    if d == 0 {
        '0'
    } else if d == 1 {
        '1'
    } else if d == 2 {
        '2'
    } else if d == 3 {
        '3'
    } else if d == 4 {
        '4'
    } else if d == 5 {
        '5'
    } else if d == 6 {
        '6'
    } else if d == 7 {
        '7'
    } else if d == 8 {
        '8'
    } else {
        '9'
    }
}

/// `n` rendered as exactly two digits (for minutes).
pub open spec fn two_digit_str(n: int) -> Seq<char> {
    seq![digit_char(n / 10), digit_char(n % 10)]
}

/// `n` rendered without a leading zero (for hours and days of month).
pub open spec fn number_str(n: int) -> Seq<char> {
    if n < 10 {
        seq![digit_char(n)]
    } else {
        two_digit_str(n)
    }
}

/// Full weekday name; 0 is Sunday through 6 is Saturday.
pub open spec fn weekday_name(w: int) -> Seq<char> {
    if w == 0 {
        seq!['S', 'u', 'n', 'd', 'a', 'y']
    } else if w == 1 {
        seq!['M', 'o', 'n', 'd', 'a', 'y']
    } else if w == 2 {
        seq!['T', 'u', 'e', 's', 'd', 'a', 'y']
    } else if w == 3 {
        seq!['W', 'e', 'd', 'n', 'e', 's', 'd', 'a', 'y']
    } else if w == 4 {
        seq!['T', 'h', 'u', 'r', 's', 'd', 'a', 'y']
    } else if w == 5 {
        seq!['F', 'r', 'i', 'd', 'a', 'y']
    } else {
        seq!['S', 'a', 't', 'u', 'r', 'd', 'a', 'y']
    }
}

/// Abbreviated month name, 1-based.
pub open spec fn month_name(m: int) -> Seq<char> {
    if m == 1 {
        seq!['J', 'a', 'n']
    } else if m == 2 {
        seq!['F', 'e', 'b']
    } else if m == 3 {
        seq!['M', 'a', 'r']
    } else if m == 4 {
        seq!['A', 'p', 'r']
    } else if m == 5 {
        seq!['M', 'a', 'y']
    } else if m == 6 {
        seq!['J', 'u', 'n']
    } else if m == 7 {
        seq!['J', 'u', 'l']
    } else if m == 8 {
        seq!['A', 'u', 'g']
    } else if m == 9 {
        seq!['S', 'e', 'p']
    } else if m == 10 {
        seq!['O', 'c', 't']
    } else if m == 11 {
        seq!['N', 'o', 'v']
    } else {
        seq!['D', 'e', 'c']
    }
}

/// The 12-hour clock hour of a local time of day.
pub open spec fn hour12_of(tod: int) -> int {
    let h = tod / 3600;
    if h % 12 == 0 {
        12
    } else {
        h % 12
    }
}

/// The minute of a local time of day.
pub open spec fn minute_of(tod: int) -> int {
    (tod % 3600) / 60
}

/// Whether the local time of day is before noon.
pub open spec fn is_am(tod: int) -> bool {
    tod / 3600 < 12
}

/// A local time of day on the 12-hour clock, minutes only when non-zero:
/// "9am", "9:05am", "12pm".
pub open spec fn time_str(tod: int) -> Seq<char> {
    let suffix: Seq<char> = if is_am(tod) {
        seq!['a', 'm']
    } else {
        seq!['p', 'm']
    };
    if minute_of(tod) == 0 {
        number_str(hour12_of(tod)) + suffix
    } else {
        number_str(hour12_of(tod)) + seq![':'] + two_digit_str(minute_of(tod)) + suffix
    }
}

/// The label of a local day: "Monday Jun 3".
pub open spec fn date_label(day: int) -> Seq<char> {
    let c = civil_of_day(day);
    weekday_name(weekday_of_day(day)) + seq![' '] + month_name(c.1) + seq![' '] + number_str(c.2)
}

/// The rendering of one slot. A slot within one local day reads
/// "Monday Jun 3: 9am–10:15am"; one whose end falls on a different local
/// day repeats the day label before the end time.
pub open spec fn slot_text(iv: Interval, off: i64) -> Seq<char> {
    let sd = local_day(iv.start as int, off as int);
    let ed = local_day(iv.end as int, off as int);
    let head = date_label(sd) + seq![':', ' '] + time_str(local_tod(iv.start as int, off as int))
        + seq!['\u{2013}'];
    if sd == ed {
        head + time_str(local_tod(iv.end as int, off as int))
    } else {
        head + date_label(ed) + seq![':', ' '] + time_str(local_tod(iv.end as int, off as int))
    }
}

/// The digit character of `d`, as a string slice.
fn digit_str(d: u8) -> (r: &'static str)
    requires
        d < 10,
    ensures
        r@ =~= seq![digit_char(d as int)],
{
    if d == 0 {
        proof {
            reveal_strlit("0");
        }
        "0"
    } else if d == 1 {
        proof {
            reveal_strlit("1");
        }
        "1"
    } else if d == 2 {
        proof {
            reveal_strlit("2");
        }
        "2"
    } else if d == 3 {
        proof {
            reveal_strlit("3");
        }
        "3"
    } else if d == 4 {
        proof {
            reveal_strlit("4");
        }
        "4"
    } else if d == 5 {
        proof {
            reveal_strlit("5");
        }
        "5"
    } else if d == 6 {
        proof {
            reveal_strlit("6");
        }
        "6"
    } else if d == 7 {
        proof {
            reveal_strlit("7");
        }
        "7"
    } else if d == 8 {
        proof {
            reveal_strlit("8");
        }
        "8"
    } else {
        proof {
            reveal_strlit("9");
        }
        "9"
    }
}

/// Appends `n` as two digits.
fn append_two_digits(s: &mut String, n: u8)
    requires
        n < 100,
    ensures
        final(s)@ == old(s)@ + two_digit_str(n as int),
{
    s.append(digit_str(n / 10));
    s.append(digit_str(n % 10));
    assert(final(s)@ =~= old(s)@ + two_digit_str(n as int));
}

/// Appends `n` without a leading zero.
fn append_number(s: &mut String, n: u8)
    requires
        n < 100,
    ensures
        final(s)@ == old(s)@ + number_str(n as int),
{
    if n < 10 {
        s.append(digit_str(n));
        assert(final(s)@ =~= old(s)@ + number_str(n as int));
    } else {
        append_two_digits(s, n);
    }
}

/// The full weekday name of weekday `w`.
fn weekday_str(w: u8) -> (r: &'static str)
    requires
        w < 7,
    ensures
        r@ =~= weekday_name(w as int),
{
    if w == 0 {
        proof {
            reveal_strlit("Sunday");
        }
        "Sunday"
    } else if w == 1 {
        proof {
            reveal_strlit("Monday");
        }
        "Monday"
    } else if w == 2 {
        proof {
            reveal_strlit("Tuesday");
        }
        "Tuesday"
    } else if w == 3 {
        proof {
            reveal_strlit("Wednesday");
        }
        "Wednesday"
    } else if w == 4 {
        proof {
            reveal_strlit("Thursday");
        }
        "Thursday"
    } else if w == 5 {
        proof {
            reveal_strlit("Friday");
        }
        "Friday"
    } else {
        proof {
            reveal_strlit("Saturday");
        }
        "Saturday"
    }
}

/// The abbreviated name of month `m`.
fn month_str(m: u8) -> (r: &'static str)
    requires
        1 <= m <= 12,
    ensures
        r@ =~= month_name(m as int),
{
    if m == 1 {
        proof {
            reveal_strlit("Jan");
        }
        "Jan"
    } else if m == 2 {
        proof {
            reveal_strlit("Feb");
        }
        "Feb"
    } else if m == 3 {
        proof {
            reveal_strlit("Mar");
        }
        "Mar"
    } else if m == 4 {
        proof {
            reveal_strlit("Apr");
        }
        "Apr"
    } else if m == 5 {
        proof {
            reveal_strlit("May");
        }
        "May"
    } else if m == 6 {
        proof {
            reveal_strlit("Jun");
        }
        "Jun"
    } else if m == 7 {
        proof {
            reveal_strlit("Jul");
        }
        "Jul"
    } else if m == 8 {
        proof {
            reveal_strlit("Aug");
        }
        "Aug"
    } else if m == 9 {
        proof {
            reveal_strlit("Sep");
        }
        "Sep"
    } else if m == 10 {
        proof {
            reveal_strlit("Oct");
        }
        "Oct"
    } else if m == 11 {
        proof {
            reveal_strlit("Nov");
        }
        "Nov"
    } else {
        proof {
            reveal_strlit("Dec");
        }
        "Dec"
    }
}

/// Appends a local time of day on the 12-hour clock.
fn append_time(s: &mut String, tod: i64)
    requires
        0 <= tod < SECS_PER_DAY,
    ensures
        final(s)@ == old(s)@ + time_str(tod as int),
{
    let h: i64 = tod / 3600;
    let minute: i64 = (tod % 3600) / 60;
    let h12: i64 = if h % 12 == 0 {
        12
    } else {
        h % 12
    };
    assert(h12 == hour12_of(tod as int) && minute == minute_of(tod as int));
    append_number(s, h12 as u8);
    if minute != 0 {
        proof {
            reveal_strlit(":");
        }
        s.append(":");
        assert(":"@ =~= seq![':']);
        append_two_digits(s, minute as u8);
    }
    if h < 12 {
        proof {
            reveal_strlit("am");
        }
        s.append("am");
        assert("am"@ =~= seq!['a', 'm']);
    } else {
        proof {
            reveal_strlit("pm");
        }
        s.append("pm");
        assert("pm"@ =~= seq!['p', 'm']);
    }
    assert(final(s)@ =~= old(s)@ + time_str(tod as int));
}

/// Appends the label of local day `day`.
fn append_date_label(s: &mut String, day: i64)
    requires
        0 <= day <= 3_000_000,
    ensures
        final(s)@ == old(s)@ + date_label(day as int),
{
    let (y, m, d) = civil_from_days(day);
    let w = weekday_from_days(day);
    proof {
        reveal_strlit(" ");
    }
    s.append(weekday_str(w));
    s.append(" ");
    assert(" "@ =~= seq![' ']);
    s.append(month_str(m));
    s.append(" ");
    append_number(s, d);
    assert(final(s)@ =~= old(s)@ + date_label(day as int));
}

/// Renders one merged slot for display.
pub fn render_slot(iv: Interval, off: i64) -> (out: String)
    requires
        valid_offset(off as int),
        valid_interval(iv),
        local_in_range(iv.start as int, off as int),
    ensures
        out@ == slot_text(iv, off),
{
    proof {
        crate::interval::lemma_local_day_tod(iv.start as int, off as int);
        crate::interval::lemma_local_day_tod(iv.end as int, off as int);
        assert(local_day(iv.end as int, off as int) * (SECS_PER_DAY as int) <= iv.end + off);
    }
    let sd: i64 = local_day_of(iv.start, off);
    let stod: i64 = local_tod_of(iv.start, off);
    let ed: i64 = local_day_of(iv.end, off);
    let etod: i64 = local_tod_of(iv.end, off);
    let mut s = String::new();
    append_date_label(&mut s, sd);
    proof {
        reveal_strlit(": ");
        reveal_strlit("\u{2013}");
    }
    s.append(": ");
    assert(": "@ =~= seq![':', ' ']);
    append_time(&mut s, stod);
    s.append("\u{2013}");
    assert("\u{2013}"@ =~= seq!['\u{2013}']);
    if sd == ed {
        append_time(&mut s, etod);
    } else {
        append_date_label(&mut s, ed);
        s.append(": ");
        append_time(&mut s, etod);
    }
    assert(s@ =~= slot_text(iv, off));
    s
}

} // verus!
