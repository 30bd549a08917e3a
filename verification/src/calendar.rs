//! Orchestrator: sequences the free-window calculator, day splitter,
//! business-hours filter and slot summarizer over one search window.

use vstd::prelude::*;
use crate::day_split::{split_all, split_at_midnight, lemma_split_all_day_bounded};
use crate::free_windows::{all_busy_wf, find_free_windows, free_windows_spec, valid_buffer};
use crate::hours_filter::{
    filter_hours, filter_slots_by_time_of_day, valid_hours, lemma_hours_containment,
};
use crate::interval::{
    BusyPeriod, Interval, SearchWindow, intervals_wf, local_in_range, valid_interval,
    valid_offset, valid_window,
};
use crate::render::slot_text;
use crate::summarize::{kept_slots, summarize_slots};

verus! {

/// The minimum duration of a summarized slot, in seconds (30 minutes).
pub const MIN_SLOT_SECS: i64 = 1800;

/// The free slots available for scheduling: free windows of the search
/// window, split at local midnight, then trimmed to business hours (left
/// untrimmed when the hour range is invalid).
pub open spec fn available_slots_spec(
    busy: Seq<BusyPeriod>,
    w: SearchWindow,
    buffer: i64,
    start_hour: u32,
    end_hour: u32,
    off: i64,
) -> Seq<Interval> {
    let split = split_all(free_windows_spec(busy, w, buffer), off);
    if valid_hours(start_hour, end_hour) {
        filter_hours(split, start_hour, end_hour, off)
    } else {
        split
    }
}

/// Computes the available slots of a search window from calendar busy
/// periods: free windows with a symmetric buffer of `buffer_minutes`
/// around each busy period, split at local midnight, and trimmed to the
/// configured business hours.
pub fn find_available_slots(
    busy: &Vec<BusyPeriod>,
    window: SearchWindow,
    buffer_minutes: u32,
    start_hour: u32,
    end_hour: u32,
    off: i64,
) -> (out: Vec<Interval>)
    requires
        valid_window(window),
        valid_offset(off as int),
        local_in_range(window.start as int, off as int),
        valid_buffer(buffer_minutes as int * 60),
        all_busy_wf(busy@, window),
    ensures
        out@ == available_slots_spec(
            busy@,
            window,
            (buffer_minutes as i64 * 60) as i64,
            start_hour,
            end_hour,
            off,
        ),
        intervals_wf(out@, off),
{
    let buffer: i64 = buffer_minutes as i64 * 60;
    let free = find_free_windows(busy, window, buffer);
    assert(intervals_wf(free@, off));
    let split = split_at_midnight(&free, off);
    proof {
        lemma_split_all_day_bounded(free@, off);
    }
    assert(intervals_wf(split@, off));
    let filtered = filter_slots_by_time_of_day(&split, start_hour, end_hour, off);
    proof {
        if valid_hours(start_hour, end_hour) {
            lemma_hours_containment(split@, start_hour, end_hour, off);
        }
    }
    filtered
}

/// The full slot search: available slots summarized as display strings,
/// with the fixed 30-minute minimum slot length.
pub fn available_slot_summaries(
    busy: &Vec<BusyPeriod>,
    window: SearchWindow,
    buffer_minutes: u32,
    start_hour: u32,
    end_hour: u32,
    off: i64,
) -> (out: Vec<String>)
    requires
        valid_window(window),
        valid_offset(off as int),
        local_in_range(window.start as int, off as int),
        valid_buffer(buffer_minutes as int * 60),
        all_busy_wf(busy@, window),
    ensures
        ({
            let kept = kept_slots(
                available_slots_spec(
                    busy@,
                    window,
                    (buffer_minutes as i64 * 60) as i64,
                    start_hour,
                    end_hour,
                    off,
                ),
                MIN_SLOT_SECS,
                off,
            );
            out@.len() == kept.len() && forall|k: int|
                0 <= k < out@.len() ==> (#[trigger] out@[k])@ == slot_text(kept[k], off)
        }),
{
    let slots = find_available_slots(busy, window, buffer_minutes, start_hour, end_hour, off);
    summarize_slots(&slots, MIN_SLOT_SECS, off)
}

} // verus!
