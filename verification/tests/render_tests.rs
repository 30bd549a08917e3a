//! Formatting tests: 12-hour clock edges, minute display, and calendar
//! dates, checked against exact expected strings.

use coffee_chat::interval::Interval;
use coffee_chat::render::render_slot;

/// Seconds since the epoch of Monday 2024-06-03 00:00:00 UTC.
const MON: i64 = 19877 * 86400;

fn at_day(day: i64, h: i64, m: i64) -> i64 {
    day * 86400 + h * 3600 + m * 60
}

fn slot(start: i64, end: i64) -> Interval {
    Interval { start, end }
}

#[test]
fn midnight_renders_as_12am() {
    let out = render_slot(slot(MON, MON + 45 * 60), 0);
    assert_eq!(out, "Monday Jun 3: 12am\u{2013}12:45am");
}

#[test]
fn noon_renders_as_12pm() {
    let out = render_slot(slot(MON + 12 * 3600, MON + 13 * 3600), 0);
    assert_eq!(out, "Monday Jun 3: 12pm\u{2013}1pm");
}

#[test]
fn minutes_rendered_two_digit_only_when_nonzero() {
    let out = render_slot(slot(MON + 9 * 3600 + 5 * 60, MON + 9 * 3600 + 30 * 60), 0);
    assert_eq!(out, "Monday Jun 3: 9:05am\u{2013}9:30am");
}

#[test]
fn cross_day_slot_repeats_the_day_label() {
    let out = render_slot(slot(MON + 22 * 3600, MON + 26 * 3600), 0);
    assert_eq!(out, "Monday Jun 3: 10pm\u{2013}Tuesday Jun 4: 2am");
}

#[test]
fn leap_day_date() {
    // 2024-02-29 was a Thursday; its day number is 19782.
    let d = 19782;
    let out = render_slot(slot(at_day(d, 9, 0), at_day(d, 10, 0)), 0);
    assert_eq!(out, "Thursday Feb 29: 9am\u{2013}10am");
}

#[test]
fn year_end_date() {
    // 2025-12-31 was a Wednesday; its day number is 20453.
    let d = 20453;
    let out = render_slot(slot(at_day(d, 15, 30), at_day(d, 16, 0)), 0);
    assert_eq!(out, "Wednesday Dec 31: 3:30pm\u{2013}4pm");
}

#[test]
fn offset_shifts_the_rendered_day_and_time() {
    // UTC+9: Monday 23:00 UTC is Tuesday 08:00 local.
    let out = render_slot(slot(MON + 23 * 3600, MON + 24 * 3600), 9 * 3600);
    assert_eq!(out, "Tuesday Jun 4: 8am\u{2013}9am");
}

#[test]
fn afternoon_times_use_pm() {
    let out = render_slot(slot(MON + 17 * 3600, MON + 18 * 3600 + 15 * 60), 0);
    assert_eq!(out, "Monday Jun 3: 5pm\u{2013}6:15pm");
}
