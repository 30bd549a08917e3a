//! Core time model: instants, half-open intervals, busy periods, search
//! windows, and local-day arithmetic for a fixed UTC offset.

use vstd::prelude::*;

verus! {

/// Seconds per local calendar day.
pub const SECS_PER_DAY: i64 = 86400;

/// Seconds per hour.
pub const SECS_PER_HOUR: i64 = 3600;

/// Latest instant the model admits: 9999-12-31T23:59:59 UTC, in seconds
/// since the Unix epoch. Keeping instants within [0, MAX_INSTANT] makes all
/// interval arithmetic free of overflow.
pub const MAX_INSTANT: i64 = 253_402_300_799;

/// A half-open span of absolute time `[start, end)`, in UTC seconds.
#[derive(Clone, Copy, Debug, PartialEq, Eq, Structural)]
pub struct Interval {
    pub start: i64,
    pub end: i64,
}

/// A calendar-reported busy period. Either bound may be missing; a missing
/// bound is treated as the corresponding search-window bound.
#[derive(Clone, Copy, Debug)]
pub struct BusyPeriod {
    pub start: Option<i64>,
    pub end: Option<i64>,
}

/// The outer bound of a whole slot-search computation, `[start, end)`.
#[derive(Clone, Copy, Debug, PartialEq, Eq, Structural)]
pub struct SearchWindow {
    pub start: i64,
    pub end: i64,
}

/// An instant the model admits.
pub open spec fn instant_in_range(t: int) -> bool {
    0 <= t <= MAX_INSTANT
}

/// A fixed UTC offset, in seconds east of Greenwich; strictly less than one
/// day in magnitude.
pub open spec fn valid_offset(off: int) -> bool {
    -SECS_PER_DAY < off < SECS_PER_DAY
}

/// The instant falls on a representable local day: its local clock reading
/// is at or after the epoch.
pub open spec fn local_in_range(t: int, off: int) -> bool {
    0 <= t + off
}

/// A retained free interval: non-empty and within the admitted timeline.
pub open spec fn valid_interval(iv: Interval) -> bool {
    &&& instant_in_range(iv.start as int)
    &&& instant_in_range(iv.end as int)
    &&& iv.start < iv.end
}

/// A list of retained free intervals on the representable local timeline:
/// the offset is valid and every interval is valid with its start (and
/// hence all of it) on a representable local day.
pub open spec fn intervals_wf(ivs: Seq<Interval>, off: i64) -> bool {
    &&& valid_offset(off as int)
    &&& forall|i: int|
        0 <= i < ivs.len() ==> valid_interval(#[trigger] ivs[i]) && local_in_range(
            ivs[i].start as int,
            off as int,
        )
}

/// A well-formed search window.
pub open spec fn valid_window(w: SearchWindow) -> bool {
    &&& instant_in_range(w.start as int)
    &&& instant_in_range(w.end as int)
    &&& w.start <= w.end
}

/// The local calendar day holding instant `t`, counted in whole days since
/// the epoch of the local clock.
pub open spec fn local_day(t: int, off: int) -> int {
    (t + off) / (SECS_PER_DAY as int)
}

/// The local time of day of instant `t`, in seconds since local midnight.
pub open spec fn local_tod(t: int, off: int) -> int {
    (t + off) % (SECS_PER_DAY as int)
}

/// The first instant of local day `day`.
pub open spec fn day_start_instant(day: int, off: int) -> int {
    day * (SECS_PER_DAY as int) - off
}

/// The instant of the next local midnight strictly after `t`.
pub open spec fn next_midnight(t: int, off: int) -> int {
    day_start_instant(local_day(t, off) + 1, off)
}

/// Decomposition of an instant into its local day and time of day.
pub proof fn lemma_local_day_tod(t: int, off: int)
    requires
        local_in_range(t, off),
    ensures
        t == day_start_instant(local_day(t, off), off) + local_tod(t, off),
        0 <= local_tod(t, off) < SECS_PER_DAY,
        t < next_midnight(t, off) <= t + SECS_PER_DAY,
{
}

/// Instants on the same local day map to the same day number; the day
/// number is monotone in the instant.
pub proof fn lemma_local_day_monotone(t1: int, t2: int, off: int)
    requires
        local_in_range(t1, off),
        local_in_range(t2, off),
        t1 <= t2,
    ensures
        local_day(t1, off) <= local_day(t2, off),
{
}

/// Every instant from `t` up to (but excluding) the next midnight shares
/// `t`'s local day.
pub proof fn lemma_same_day_until_midnight(t: int, u: int, off: int)
    requires
        local_in_range(t, off),
        t <= u < next_midnight(t, off),
    ensures
        local_day(u, off) == local_day(t, off),
{
}

/// An instant written as a day number plus a time of day decomposes back
/// into exactly those parts.
pub proof fn lemma_day_decomposition(day: int, v: int, off: int)
    requires
        0 <= v < SECS_PER_DAY,
    ensures
        local_day(day_start_instant(day, off) + v, off) == day,
        local_tod(day_start_instant(day, off) + v, off) == v,
{
    let t = day_start_instant(day, off) + v;
    vstd::arithmetic::div_mod::lemma_fundamental_div_mod_converse(
        t + off,
        SECS_PER_DAY as int,
        day,
        v,
    );
}

/// Computes `local_day` on machine integers.
pub fn local_day_of(t: i64, off: i64) -> (d: i64)
    requires
        instant_in_range(t as int),
        valid_offset(off as int),
        local_in_range(t as int, off as int),
    ensures
        d == local_day(t as int, off as int),
{
    (t + off) / SECS_PER_DAY
}

/// Computes `local_tod` on machine integers.
pub fn local_tod_of(t: i64, off: i64) -> (s: i64)
    requires
        instant_in_range(t as int),
        valid_offset(off as int),
        local_in_range(t as int, off as int),
    ensures
        s == local_tod(t as int, off as int),
{
    (t + off) % SECS_PER_DAY
}

/// Computes `next_midnight` on machine integers.
pub fn next_midnight_of(t: i64, off: i64) -> (m: i64)
    requires
        instant_in_range(t as int),
        valid_offset(off as int),
        local_in_range(t as int, off as int),
    ensures
        m == next_midnight(t as int, off as int),
{
    let d: i64 = local_day_of(t, off);
    (d + 1) * SECS_PER_DAY - off
}

} // verus!
