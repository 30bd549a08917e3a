//! End-to-end and per-stage tests of the slot-search pipeline, all on
//! concrete UTC timestamps. Monday 2024-06-03 serves as the base day.

use coffee_chat::calendar::{available_slot_summaries, find_available_slots};
use coffee_chat::day_split::split_at_midnight;
use coffee_chat::free_windows::find_free_windows;
use coffee_chat::hours_filter::filter_slots_by_time_of_day;
use coffee_chat::interval::{BusyPeriod, Interval, SearchWindow};
use coffee_chat::summarize::summarize_slots;

/// Seconds since the epoch of Monday 2024-06-03 00:00:00 UTC.
const MON: i64 = 19877 * 86400;

fn at(h: i64, m: i64) -> i64 {
    MON + h * 3600 + m * 60
}

fn iv(start: i64, end: i64) -> Interval {
    Interval { start, end }
}

fn busy(start: i64, end: i64) -> BusyPeriod {
    BusyPeriod { start: Some(start), end: Some(end) }
}

#[test]
fn empty_busy_yields_whole_window() {
    let w = SearchWindow { start: at(0, 0), end: at(23, 59) };
    let out = find_free_windows(&vec![], w, 0);
    assert_eq!(out, vec![iv(at(0, 0), at(23, 59))]);
}

#[test]
fn buffer_pads_both_sides_of_busy() {
    let w = SearchWindow { start: at(9, 0), end: at(12, 0) };
    let out = find_free_windows(&vec![busy(at(10, 0), at(11, 0))], w, 15 * 60);
    assert_eq!(out, vec![iv(at(9, 0), at(9, 45)), iv(at(11, 15), at(12, 0))]);
}

#[test]
fn covering_busy_yields_no_free_windows() {
    let w = SearchWindow { start: at(9, 0), end: at(12, 0) };
    let out = find_free_windows(&vec![busy(at(8, 0), at(13, 0))], w, 0);
    assert_eq!(out, Vec::new());
}

#[test]
fn overlapping_and_unordered_busy_absorbed() {
    let w = SearchWindow { start: at(9, 0), end: at(13, 0) };
    let b = vec![busy(at(10, 30), at(12, 0)), busy(at(10, 0), at(11, 0))];
    let out = find_free_windows(&b, w, 0);
    assert_eq!(out, vec![iv(at(9, 0), at(10, 0)), iv(at(12, 0), at(13, 0))]);
    // No-overlap invariant on this output: sorted and pairwise disjoint.
    for k in 0..out.len() - 1 {
        assert!(out[k].end <= out[k + 1].start);
    }
}

#[test]
fn missing_bounds_default_to_window() {
    let w = SearchWindow { start: at(9, 0), end: at(12, 0) };
    // No start: blocks from the window start. No end: blocks to the window end.
    let b = vec![
        BusyPeriod { start: None, end: Some(at(9, 30)) },
        BusyPeriod { start: Some(at(11, 0)), end: None },
    ];
    let out = find_free_windows(&b, w, 0);
    assert_eq!(out, vec![iv(at(9, 30), at(11, 0))]);
}

#[test]
fn buffer_overhang_is_clamped_to_window() {
    // The padded busy period extends past both window edges; the output
    // never leaves the window and never has negative length.
    let w = SearchWindow { start: at(9, 0), end: at(12, 0) };
    let out = find_free_windows(&vec![busy(at(9, 10), at(11, 50))], w, 30 * 60);
    assert_eq!(out, Vec::new());
    let late = find_free_windows(&vec![busy(at(11, 50), at(13, 0))], w, 30 * 60);
    assert_eq!(late, vec![iv(at(9, 0), at(11, 20))]);
}

#[test]
fn both_bounds_missing_blocks_whole_window() {
    let w = SearchWindow { start: at(9, 0), end: at(12, 0) };
    let out = find_free_windows(&vec![BusyPeriod { start: None, end: None }], w, 0);
    assert_eq!(out, Vec::new());
}

#[test]
fn conservation_with_zero_length_busy() {
    // A zero-length busy period with no buffer blocks nothing: the free
    // intervals jointly cover the whole window.
    let w = SearchWindow { start: at(9, 0), end: at(12, 0) };
    let out = find_free_windows(&vec![busy(at(10, 0), at(10, 0))], w, 0);
    assert_eq!(out, vec![iv(at(9, 0), at(10, 0)), iv(at(10, 0), at(12, 0))]);
    let covered: i64 = out.iter().map(|s| s.end - s.start).sum();
    assert_eq!(covered, w.end - w.start);
}

#[test]
fn conservation_busy_plus_free_rebuilds_window() {
    let w = SearchWindow { start: at(9, 0), end: at(13, 0) };
    let b = vec![busy(at(10, 0), at(11, 0))];
    let buffer = 10 * 60;
    let out = find_free_windows(&b, w, buffer);
    assert_eq!(out, vec![iv(at(9, 0), at(9, 50)), iv(at(11, 10), at(13, 0))]);
    // Free time plus padded busy time adds up to the window, with no
    // double counting.
    let free: i64 = out.iter().map(|s| s.end - s.start).sum();
    let padded: i64 = (at(11, 10) - at(9, 50)) as i64;
    assert_eq!(free + padded, w.end - w.start);
}

#[test]
fn split_at_local_midnight_utc() {
    let input = vec![iv(at(22, 0), at(26, 0))];
    let out = split_at_midnight(&input, 0);
    assert_eq!(out, vec![iv(at(22, 0), at(24, 0)), iv(at(24, 0), at(26, 0))]);
}

#[test]
fn split_respects_offset() {
    // UTC-5: local midnight falls at 05:00 UTC.
    let off = -5 * 3600;
    let input = vec![iv(at(22, 0), at(32, 0))];
    let out = split_at_midnight(&input, off);
    assert_eq!(out, vec![iv(at(22, 0), at(29, 0)), iv(at(29, 0), at(32, 0))]);
}

#[test]
fn split_within_one_day_is_unchanged() {
    let input = vec![iv(at(9, 0), at(17, 0))];
    let out = split_at_midnight(&input, 0);
    assert_eq!(out, input);
}

#[test]
fn split_is_idempotent() {
    let input = vec![iv(at(20, 0), at(50, 0)), iv(at(52, 0), at(55, 0))];
    let once = split_at_midnight(&input, 0);
    let twice = split_at_midnight(&once, 0);
    assert_eq!(once, twice);
    assert_eq!(
        once,
        vec![
            iv(at(20, 0), at(24, 0)),
            iv(at(24, 0), at(48, 0)),
            iv(at(48, 0), at(50, 0)),
            iv(at(52, 0), at(55, 0)),
        ]
    );
}

#[test]
fn filter_trims_to_business_hours() {
    let out = filter_slots_by_time_of_day(&vec![iv(at(9, 0), at(17, 0))], 9, 12, 0);
    assert_eq!(out, vec![iv(at(9, 0), at(12, 0))]);
    let afternoon = filter_slots_by_time_of_day(&vec![iv(at(9, 0), at(17, 0))], 13, 17, 0);
    assert_eq!(afternoon, vec![iv(at(13, 0), at(17, 0))]);
}

#[test]
fn filter_discards_slot_outside_hours() {
    let out = filter_slots_by_time_of_day(&vec![iv(at(18, 0), at(20, 0))], 9, 17, 0);
    assert_eq!(out, Vec::new());
}

#[test]
fn filter_hours_containment_holds() {
    let out = filter_slots_by_time_of_day(&vec![iv(at(8, 0), at(20, 0))], 9, 17, 0);
    assert_eq!(out, vec![iv(at(9, 0), at(17, 0))]);
    for s in &out {
        let start_tod = (s.start % 86400 + 86400) % 86400;
        let end_tod = (s.end % 86400 + 86400) % 86400;
        assert!(start_tod >= 9 * 3600);
        assert!(end_tod <= 17 * 3600);
    }
}

#[test]
fn filter_respects_offset() {
    // UTC+2: 09:00 local is 07:00 UTC.
    let off = 2 * 3600;
    let out = filter_slots_by_time_of_day(&vec![iv(at(5, 0), at(12, 0))], 9, 17, off);
    assert_eq!(out, vec![iv(at(7, 0), at(12, 0))]);
}

#[test]
fn invalid_hour_range_is_a_no_op() {
    let input = vec![iv(at(9, 0), at(17, 0)), iv(at(18, 0), at(20, 0))];
    let out = filter_slots_by_time_of_day(&input, 14, 9, 0);
    assert_eq!(out, input);
}

#[test]
fn summarize_merges_touching_same_day_slots() {
    let input = vec![iv(at(9, 0), at(9, 30)), iv(at(9, 30), at(10, 15))];
    let out = summarize_slots(&input, 30 * 60, 0);
    assert_eq!(out, vec!["Monday Jun 3: 9am\u{2013}10:15am".to_string()]);
}

#[test]
fn summarize_keeps_gapped_slots_separate() {
    let input = vec![iv(at(9, 0), at(10, 0)), iv(at(11, 0), at(12, 0))];
    let out = summarize_slots(&input, 30 * 60, 0);
    assert_eq!(
        out,
        vec![
            "Monday Jun 3: 9am\u{2013}10am".to_string(),
            "Monday Jun 3: 11am\u{2013}12pm".to_string(),
        ]
    );
}

#[test]
fn summarize_does_not_merge_across_midnight() {
    // Touching at midnight, but on different local days: two entries.
    let input = vec![iv(at(22, 0), at(24, 0)), iv(at(24, 0), at(26, 0))];
    let out = summarize_slots(&input, 30 * 60, 0);
    assert_eq!(
        out,
        vec![
            "Monday Jun 3: 10pm\u{2013}Tuesday Jun 4: 12am".to_string(),
            "Tuesday Jun 4: 12am\u{2013}2am".to_string(),
        ]
    );
}

#[test]
fn summarize_drops_short_slots() {
    let input = vec![iv(at(9, 0), at(9, 20))];
    let out = summarize_slots(&input, 30 * 60, 0);
    assert_eq!(out, Vec::<String>::new());
}

#[test]
fn summarize_sorts_before_merging() {
    let input = vec![iv(at(9, 30), at(10, 15)), iv(at(9, 0), at(9, 30))];
    let out = summarize_slots(&input, 30 * 60, 0);
    assert_eq!(out, vec!["Monday Jun 3: 9am\u{2013}10:15am".to_string()]);
}

#[test]
fn orchestrator_runs_all_stages() {
    let w = SearchWindow { start: at(0, 0), end: at(48, 0) };
    let b = vec![busy(at(10, 0), at(11, 0))];
    let out = find_available_slots(&b, w, 15, 9, 17, 0);
    assert_eq!(
        out,
        vec![
            iv(at(9, 0), at(9, 45)),
            iv(at(11, 15), at(17, 0)),
            iv(at(33, 0), at(41, 0)),
        ]
    );
}

#[test]
fn orchestrator_summaries_end_to_end() {
    let w = SearchWindow { start: at(0, 0), end: at(24, 0) };
    let b = vec![busy(at(10, 0), at(11, 0))];
    let out = available_slot_summaries(&b, w, 15, 9, 17, 0);
    assert_eq!(
        out,
        vec![
            "Monday Jun 3: 9am\u{2013}9:45am".to_string(),
            "Monday Jun 3: 11:15am\u{2013}5pm".to_string(),
        ]
    );
}

#[test]
fn orchestrator_with_offset() {
    // UTC-4: business hours 9-17 local are 13:00-21:00 UTC.
    let off = -4 * 3600;
    let w = SearchWindow { start: at(0, 0), end: at(24, 0) };
    let out = find_available_slots(&vec![], w, 0, 9, 17, off);
    assert_eq!(out, vec![iv(at(13, 0), at(21, 0))]);
}
