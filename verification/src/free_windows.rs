//! Free-Window Calculator: complements a list of busy periods within a
//! search window, padding each busy period with a symmetric buffer first.

use vstd::prelude::*;
use vstd::relations::sorted_by;
use crate::interval::{
    BusyPeriod, Interval, SearchWindow, instant_in_range, valid_window, MAX_INSTANT,
};
use crate::sort::{lex_leq, lex_leq_fn, sort_intervals, sort_intervals_spec};

verus! {

/// The start bound a busy period contributes: a missing start defaults to
/// the window start.
pub open spec fn eff_start(p: BusyPeriod, w: SearchWindow) -> i64 {
    match p.start {
        Some(s) => s,
        None => w.start,
    }
}

/// The end bound a busy period contributes: a missing end defaults to the
/// window end.
pub open spec fn eff_end(p: BusyPeriod, w: SearchWindow) -> i64 {
    match p.end {
        Some(e) => e,
        None => w.end,
    }
}

/// A busy period whose effective bounds are ordered and representable.
pub open spec fn busy_wf(p: BusyPeriod, w: SearchWindow) -> bool {
    &&& instant_in_range(eff_start(p, w) as int)
    &&& instant_in_range(eff_end(p, w) as int)
    &&& eff_start(p, w) <= eff_end(p, w)
}

pub open spec fn all_busy_wf(busy: Seq<BusyPeriod>, w: SearchWindow) -> bool {
    forall|i: int| 0 <= i < busy.len() ==> busy_wf(#[trigger] busy[i], w)
}

/// An admissible buffer duration, in seconds.
pub open spec fn valid_buffer(buf: int) -> bool {
    0 <= buf <= MAX_INSTANT
}

/// The "blocked" interval of a busy period: its effective bounds, padded by
/// the buffer on both sides.
pub open spec fn padded_iv(p: BusyPeriod, w: SearchWindow, buf: i64) -> Interval {
    Interval { start: (eff_start(p, w) - buf) as i64, end: (eff_end(p, w) + buf) as i64 }
}

/// All blocked intervals, in the busy list's order.
pub open spec fn padded_seq(busy: Seq<BusyPeriod>, w: SearchWindow, buf: i64) -> Seq<Interval> {
    Seq::new(busy.len(), |i: int| padded_iv(busy[i], w, buf))
}

/// Instant `t` lies inside some padded busy period.
pub open spec fn in_padded(busy: Seq<BusyPeriod>, w: SearchWindow, buf: i64, t: int) -> bool {
    exists|i: int|
        0 <= i < busy.len() && padded_iv(#[trigger] busy[i], w, buf).start <= t < padded_iv(
            busy[i],
            w,
            buf,
        ).end
}

/// Instant `t` lies inside some interval of the sequence.
pub open spec fn in_intervals(ivs: Seq<Interval>, t: int) -> bool {
    exists|k: int| 0 <= k < ivs.len() && (#[trigger] ivs[k]).start <= t < ivs[k].end
}

/// The free intervals left of `[cursor, wend)` after subtracting a sorted
/// sequence of blocked intervals: the cursor advances monotonically past
/// each blocked interval, emitting the gaps.
pub open spec fn free_from(ps: Seq<Interval>, cursor: i64, wend: i64) -> Seq<Interval>
    decreases ps.len(),
{
    if ps.len() == 0 {
        if cursor < wend {
            seq![Interval { start: cursor, end: wend }]
        } else {
            Seq::empty()
        }
    } else {
        let p = ps[0];
        let gap_end: i64 = if p.start < wend {
            p.start
        } else {
            wend
        };
        let head: Seq<Interval> = if cursor < gap_end {
            seq![Interval { start: cursor, end: gap_end }]
        } else {
            Seq::empty()
        };
        let c2: i64 = if p.end > cursor {
            p.end
        } else {
            cursor
        };
        head + free_from(ps.drop_first(), c2, wend)
    }
}

/// The full calculator: pad every busy period, sort the blocked intervals
/// by start, and walk the window with a monotone cursor.
pub open spec fn free_windows_spec(busy: Seq<BusyPeriod>, w: SearchWindow, buf: i64) -> Seq<
    Interval,
> {
    free_from(sort_intervals_spec(padded_seq(busy, w, buf)), w.start, w.end)
}

/// Once the cursor has reached the window end, nothing more is emitted.
proof fn lemma_free_from_saturated(ps: Seq<Interval>, cursor: i64, wend: i64)
    requires
        cursor >= wend,
    ensures
        free_from(ps, cursor, wend) =~= Seq::<Interval>::empty(),
    decreases ps.len(),
{
    if ps.len() > 0 {
        let p = ps[0];
        let c2: i64 = if p.end > cursor {
            p.end
        } else {
            cursor
        };
        lemma_free_from_saturated(ps.drop_first(), c2, wend);
    }
}

/// Correctness of the cursor walk over a sorted blocked sequence: the
/// emitted intervals are non-empty, lie within `[cursor, wend)`, are sorted
/// and pairwise disjoint, and contain exactly the instants of
/// `[cursor, wend)` that no blocked interval covers.
proof fn lemma_free_from_props(ps: Seq<Interval>, cursor: i64, wend: i64)
    requires
        forall|i: int, j: int| 0 <= i < j < ps.len() ==> (#[trigger] ps[i]).start <= (
        #[trigger] ps[j]).start,
        forall|i: int| 0 <= i < ps.len() ==> (#[trigger] ps[i]).start <= ps[i].end,
    ensures
        forall|k: int|
            0 <= k < free_from(ps, cursor, wend).len() ==> cursor <= (#[trigger] free_from(
                ps,
                cursor,
                wend,
            )[k]).start < free_from(ps, cursor, wend)[k].end <= wend,
        forall|a: int, b: int|
            0 <= a < b < free_from(ps, cursor, wend).len() ==> (#[trigger] free_from(
                ps,
                cursor,
                wend,
            )[a]).end <= (#[trigger] free_from(ps, cursor, wend)[b]).start,
        forall|t: int|
            in_intervals(free_from(ps, cursor, wend), t) <==> (cursor <= t < wend
                && !in_intervals(ps, t)),
    decreases ps.len(),
{
    let res = free_from(ps, cursor, wend);
    if ps.len() == 0 {
        assert(forall|t: int| !in_intervals(ps, t));
        if cursor < wend {
            assert forall|t: int| cursor <= t < wend implies in_intervals(res, t) by {
                assert(res[0].start <= t < res[0].end);
            }
        }
    } else {
        let p = ps[0];
        let gap_end: i64 = if p.start < wend {
            p.start
        } else {
            wend
        };
        let head: Seq<Interval> = if cursor < gap_end {
            seq![Interval { start: cursor, end: gap_end }]
        } else {
            Seq::empty()
        };
        let c2: i64 = if p.end > cursor {
            p.end
        } else {
            cursor
        };
        let rest = ps.drop_first();
        let rec = free_from(rest, c2, wend);
        assert(res == head + rec);
        assert(forall|i: int| 0 <= i < rest.len() ==> rest[i] == ps[i + 1]);
        lemma_free_from_props(rest, c2, wend);

        // Indexing through the concatenation.
        assert(forall|k: int| 0 <= k < head.len() ==> res[k] == head[k]);
        assert(forall|k: int|
            head.len() <= k < res.len() ==> res[k] == rec[k - head.len()]);

        // Bounds of each emitted interval.
        assert forall|k: int| 0 <= k < res.len() implies cursor <= (#[trigger] res[k]).start
            < res[k].end <= wend by {
            if k < head.len() {
            } else {
                assert(c2 <= rec[k - head.len()].start);
            }
        }

        // Sortedness / disjointness.
        assert forall|a: int, b: int| 0 <= a < b < res.len() implies (#[trigger] res[a]).end <= (
        #[trigger] res[b]).start by {
            if a < head.len() {
                assert(res[a].end == gap_end);
                assert(gap_end <= c2);
                assert(c2 <= rec[b - head.len()].start);
            } else {
                assert(rec[a - head.len()].end <= rec[b - head.len()].start);
            }
        }

        // Membership, forward direction.
        assert forall|t: int| in_intervals(res, t) implies (cursor <= t < wend && !in_intervals(
            ps,
            t,
        )) by {
            let k = choose|k: int| 0 <= k < res.len() && (#[trigger] res[k]).start <= t < res[k].end;
            if k < head.len() {
                assert(cursor <= t < gap_end);
                assert(t < p.start);
                assert forall|i: int|
                    0 <= i < ps.len() implies !((#[trigger] ps[i]).start <= t < ps[i].end) by {
                    assert(ps[0].start <= ps[i].start);
                }
            } else {
                assert(rec[k - head.len()].start <= t < rec[k - head.len()].end);
                assert(in_intervals(rec, t));
                assert(c2 <= t < wend && !in_intervals(rest, t));
                assert(t >= p.end);
                assert forall|i: int|
                    0 <= i < ps.len() implies !((#[trigger] ps[i]).start <= t < ps[i].end) by {
                    if i == 0 {
                    } else {
                        assert(rest[i - 1] == ps[i]);
                        assert(!(rest[i - 1].start <= t < rest[i - 1].end));
                    }
                }
            }
        }

        // Membership, backward direction.
        assert forall|t: int| cursor <= t < wend && !in_intervals(ps, t) implies in_intervals(
            res,
            t,
        ) by {
            assert(!(p.start <= t < p.end));
            if t < p.start {
                assert(cursor <= t < gap_end);
                assert(head.len() == 1);
                assert(res[0] == head[0]);
                assert(res[0].start <= t < res[0].end);
            } else {
                assert(t >= p.end);
                assert(c2 <= t < wend);
                assert(!in_intervals(rest, t)) by {
                    assert forall|i: int|
                        0 <= i < rest.len() implies !((#[trigger] rest[i]).start <= t
                        < rest[i].end) by {
                        assert(rest[i] == ps[i + 1]);
                        assert(!(ps[i + 1].start <= t < ps[i + 1].end));
                    }
                }
                assert(in_intervals(rec, t));
                let k = choose|k: int|
                    0 <= k < rec.len() && (#[trigger] rec[k]).start <= t < rec[k].end;
                assert(res[k + head.len()] == rec[k]);
                assert(in_intervals(res, t));
            }
        }
    }
}

/// Membership in a sequence of intervals is invariant under permutation.
proof fn lemma_in_intervals_multiset(a: Seq<Interval>, b: Seq<Interval>, t: int)
    requires
        a.to_multiset() == b.to_multiset(),
    ensures
        in_intervals(a, t) == in_intervals(b, t),
{
    broadcast use vstd::seq_lib::group_to_multiset_ensures;

    if in_intervals(a, t) {
        let k = choose|k: int| 0 <= k < a.len() && (#[trigger] a[k]).start <= t < a[k].end;
        assert(a.contains(a[k]));
        assert(a.to_multiset().count(a[k]) > 0);
        assert(b.to_multiset().count(a[k]) > 0);
        assert(b.contains(a[k]));
        let j = choose|j: int| 0 <= j < b.len() && b[j] == a[k];
        assert(b[j].start <= t < b[j].end);
    }
    if in_intervals(b, t) {
        let k = choose|k: int| 0 <= k < b.len() && (#[trigger] b[k]).start <= t < b[k].end;
        assert(b.contains(b[k]));
        assert(b.to_multiset().count(b[k]) > 0);
        assert(a.to_multiset().count(b[k]) > 0);
        assert(a.contains(b[k]));
        let j = choose|j: int| 0 <= j < a.len() && a[j] == b[k];
        assert(a[j].start <= t < a[j].end);
    }
}

/// Computes the free windows of a search window, given calendar busy
/// periods and a symmetric buffer (all in seconds).
///
/// The output intervals are non-empty, clamped to the window, sorted by
/// start, pairwise disjoint, and cover exactly the instants of the window
/// that no buffer-padded busy period covers.
pub fn find_free_windows(busy: &Vec<BusyPeriod>, window: SearchWindow, buffer: i64) -> (out: Vec<
    Interval,
>)
    requires
        valid_window(window),
        valid_buffer(buffer as int),
        all_busy_wf(busy@, window),
    ensures
        out@ == free_windows_spec(busy@, window, buffer),
        forall|k: int|
            0 <= k < out@.len() ==> window.start <= (#[trigger] out@[k]).start < out@[k].end
                <= window.end,
        forall|a: int, b: int|
            0 <= a < b < out@.len() ==> (#[trigger] out@[a]).end <= (#[trigger] out@[b]).start,
        forall|t: int|
            in_intervals(out@, t) <==> (window.start <= t < window.end && !in_padded(
                busy@,
                window,
                buffer,
                t,
            )),
{
    // Pad every busy period, defaulting missing bounds to the window.
    let mut padded: Vec<Interval> = Vec::new();
    let mut i: usize = 0;
    while i < busy.len()
        invariant
            0 <= i <= busy.len(),
            valid_window(window),
            valid_buffer(buffer as int),
            all_busy_wf(busy@, window),
            padded@.len() == i,
            forall|k: int| 0 <= k < i ==> padded@[k] == padded_iv(busy@[k], window, buffer),
        decreases busy.len() - i,
    {
        let p = busy[i];
        assert(busy_wf(busy@[i as int], window));
        let bs: i64 = match p.start {
            Some(s) => s,
            None => window.start,
        };
        let be: i64 = match p.end {
            Some(e) => e,
            None => window.end,
        };
        padded.push(Interval { start: bs - buffer, end: be + buffer });
        i = i + 1;
    }
    assert(padded@ =~= padded_seq(busy@, window, buffer));

    let sp = sort_intervals(&padded);
    let ghost sps = sp@;
    proof {
        crate::sort::lemma_sort_intervals_spec(padded@);
        assert forall|a: int, b: int| 0 <= a < b < sps.len() implies (#[trigger] sps[a]).start <= (
        #[trigger] sps[b]).start by {
            assert(lex_leq_fn()(sps[a], sps[b]));
            assert(lex_leq(sps[a], sps[b]));
        }
        assert forall|k: int| 0 <= k < sps.len() implies (#[trigger] sps[k]).start <= sps[k].end by {
            broadcast use vstd::seq_lib::group_to_multiset_ensures;

            assert(sps.contains(sps[k]));
            assert(sps.to_multiset().count(sps[k]) > 0);
            assert(padded@.to_multiset().count(sps[k]) > 0);
            assert(padded@.contains(sps[k]));
            let j = choose|j: int| 0 <= j < padded@.len() && padded@[j] == sps[k];
            assert(padded@[j] == padded_iv(busy@[j], window, buffer));
            assert(busy_wf(busy@[j], window));
        }
    }

    // Walk the window with a monotone cursor over the sorted blocked
    // intervals, emitting each gap.
    let mut out: Vec<Interval> = Vec::new();
    let mut cursor: i64 = window.start;
    let mut j: usize = 0;
    proof {
        assert(sps.skip(0) =~= sps);
        assert(Seq::<Interval>::empty() + free_from(sps, window.start, window.end) =~= free_from(
            sps,
            window.start,
            window.end,
        ));
    }
    while j < sp.len() && cursor < window.end
        invariant
            0 <= j <= sp.len(),
            sp@ == sps,
            valid_window(window),
            out@ + free_from(sps.skip(j as int), cursor, window.end) == free_from(
                sps,
                window.start,
                window.end,
            ),
        decreases sp.len() - j,
    {
        let p = sp[j];
        let ghost pre = out@;
        let ghost c0 = cursor;
        let gap_end: i64 = if p.start < window.end {
            p.start
        } else {
            window.end
        };
        if cursor < gap_end {
            out.push(Interval { start: cursor, end: gap_end });
        }
        if p.end > cursor {
            cursor = p.end;
        }
        proof {
            let tail = sps.skip(j as int);
            assert(tail[0] == sps[j as int]);
            assert(tail.drop_first() =~= sps.skip(j + 1));
            let head: Seq<Interval> = if c0 < gap_end {
                seq![Interval { start: c0, end: gap_end }]
            } else {
                Seq::empty()
            };
            assert(free_from(tail, c0, window.end) == head + free_from(
                sps.skip(j + 1),
                cursor,
                window.end,
            ));
            assert(out@ == pre + head);
            assert(out@ + free_from(sps.skip(j + 1), cursor, window.end) =~= pre + free_from(
                tail,
                c0,
                window.end,
            ));
        }
        j = j + 1;
    }
    proof {
        if j < sp.len() {
            lemma_free_from_saturated(sps.skip(j as int), cursor, window.end);
        } else {
            assert(sps.skip(j as int) =~= Seq::<Interval>::empty());
        }
    }
    if cursor < window.end {
        out.push(Interval { start: cursor, end: window.end });
        proof {
            let tail: Seq<Interval> = Seq::empty();
            assert(free_from(tail, cursor, window.end) == seq![
                Interval { start: cursor, end: window.end },
            ]);
        }
    }
    assert(out@ =~= free_from(sps, window.start, window.end));

    proof {
        lemma_free_from_props(sps, window.start, window.end);
        assert forall|t: int| in_intervals(sps, t) == in_padded(busy@, window, buffer, t) by {
            lemma_in_intervals_multiset(sps, padded@, t);
            if in_intervals(padded@, t) {
                let k = choose|k: int|
                    0 <= k < padded@.len() && (#[trigger] padded@[k]).start <= t < padded@[k].end;
                assert(padded_iv(busy@[k], window, buffer).start <= t < padded_iv(
                    busy@[k],
                    window,
                    buffer,
                ).end);
            }
            if in_padded(busy@, window, buffer, t) {
                let k = choose|k: int|
                    0 <= k < busy@.len() && padded_iv(#[trigger] busy@[k], window, buffer).start
                        <= t < padded_iv(busy@[k], window, buffer).end;
                assert(padded@[k].start <= t < padded@[k].end);
            }
        }
        assert forall|t: int|
            in_intervals(out@, t) <==> (window.start <= t < window.end && !in_padded(
                busy@,
                window,
                buffer,
                t,
            )) by {
            assert(in_intervals(out@, t) == in_intervals(
                free_from(sps, window.start, window.end),
                t,
            ));
            assert(in_intervals(free_from(sps, window.start, window.end), t) <==> (window.start
                <= t < window.end && !in_intervals(sps, t)));
            assert(in_intervals(sps, t) == in_padded(busy@, window, buffer, t));
        }
    }
    out
}

} // verus!
