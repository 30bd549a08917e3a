//! Slot Summarizer: sorts free slots, merges contiguous slots within the
//! same local day, drops merged slots shorter than a minimum duration, and
//! renders the survivors as display strings.

use vstd::prelude::*;
use crate::interval::{
    Interval, intervals_wf, local_day, local_day_of, local_in_range, valid_interval, valid_offset,
};
use crate::render::{render_slot, slot_text};
use crate::sort::{lex_leq, lex_leq_fn, sort_intervals, sort_intervals_spec};

verus! {

/// Adjacent slots never overlap: each ends no later than the next starts.
pub open spec fn chain_disjoint(s: Seq<Interval>) -> bool {
    forall|i: int| 0 <= i < s.len() - 1 ==> (#[trigger] s[i]).end <= s[i + 1].start
}

/// Merges a current run with the remaining sorted slots: a slot starting
/// exactly where the run ends, on the run's local day, extends the run;
/// anything else closes it.
pub open spec fn merge_from(cur: Interval, rest: Seq<Interval>, off: i64) -> Seq<Interval>
    decreases rest.len(),
{
    if rest.len() == 0 {
        seq![cur]
    } else {
        let nxt = rest[0];
        if nxt.start == cur.end && local_day(nxt.start as int, off as int) == local_day(
            cur.start as int,
            off as int,
        ) {
            merge_from(Interval { start: cur.start, end: nxt.end }, rest.drop_first(), off)
        } else {
            seq![cur] + merge_from(nxt, rest.drop_first(), off)
        }
    }
}

/// The merged runs of a sorted slot sequence.
pub open spec fn merge_runs(s: Seq<Interval>, off: i64) -> Seq<Interval> {
    if s.len() == 0 {
        Seq::empty()
    } else {
        merge_from(s[0], s.drop_first(), off)
    }
}

/// Keeps the runs of at least the minimum duration, in order.
pub open spec fn keep_long(s: Seq<Interval>, min_len: i64) -> Seq<Interval>
    decreases s.len(),
{
    if s.len() == 0 {
        Seq::empty()
    } else if s[0].end - s[0].start >= min_len {
        seq![s[0]] + keep_long(s.drop_first(), min_len)
    } else {
        keep_long(s.drop_first(), min_len)
    }
}

/// The merged slots that survive summarization and get rendered.
pub open spec fn kept_slots(slots: Seq<Interval>, min_len: i64, off: i64) -> Seq<Interval> {
    keep_long(merge_runs(sort_intervals_spec(slots), off), min_len)
}

/// No kept run is shorter than the minimum duration
/// [law: minimum-length enforcement].
pub proof fn lemma_keep_long_min(s: Seq<Interval>, min_len: i64)
    ensures
        forall|k: int|
            0 <= k < keep_long(s, min_len).len() ==> (#[trigger] keep_long(s, min_len)[k]).end
                - keep_long(s, min_len)[k].start >= min_len,
    decreases s.len(),
{
    if s.len() > 0 {
        lemma_keep_long_min(s.drop_first(), min_len);
        if s[0].end - s[0].start >= min_len {
            let kept = keep_long(s, min_len);
            let r = keep_long(s.drop_first(), min_len);
            assert(forall|k: int| 1 <= k < kept.len() ==> kept[k] == r[k - 1]);
        }
    }
}

/// No summarized slot is shorter than `min_len`, whatever the input
/// [law: minimum-length enforcement].
pub proof fn lemma_summary_min_length(slots: Seq<Interval>, min_len: i64, off: i64)
    ensures
        forall|k: int|
            0 <= k < kept_slots(slots, min_len, off).len() ==> (#[trigger] kept_slots(
                slots,
                min_len,
                off,
            )[k]).end - kept_slots(slots, min_len, off)[k].start >= min_len,
{
    lemma_keep_long_min(merge_runs(sort_intervals_spec(slots), off), min_len);
}

/// The separation discipline of a run sequence: consecutive runs never
/// overlap, and they touch only across a local-day boundary.
pub open spec fn runs_separated(s: Seq<Interval>, off: i64) -> bool {
    forall|k: int|
        0 <= k < s.len() - 1 ==> (#[trigger] s[k]).end <= s[k + 1].start && (s[k].end == s[k
            + 1].start ==> local_day(s[k + 1].start as int, off as int) != local_day(
            s[k].start as int,
            off as int,
        ))
}

/// What merging yields on disjoint sorted slots: non-empty valid runs,
/// starting where the current run starts, pairwise separated as
/// `runs_separated` demands.
proof fn lemma_merge_from_props(cur: Interval, rest: Seq<Interval>, off: i64)
    requires
        valid_offset(off as int),
        valid_interval(cur),
        local_in_range(cur.start as int, off as int),
        forall|i: int|
            0 <= i < rest.len() ==> valid_interval(#[trigger] rest[i]) && local_in_range(
                rest[i].start as int,
                off as int,
            ),
        chain_disjoint(rest),
        rest.len() > 0 ==> cur.end <= rest[0].start,
    ensures
        merge_from(cur, rest, off).len() >= 1,
        merge_from(cur, rest, off)[0].start == cur.start,
        forall|k: int|
            0 <= k < merge_from(cur, rest, off).len() ==> valid_interval(
                #[trigger] merge_from(cur, rest, off)[k],
            ) && local_in_range(merge_from(cur, rest, off)[k].start as int, off as int),
        runs_separated(merge_from(cur, rest, off), off),
    decreases rest.len(),
{
    let runs = merge_from(cur, rest, off);
    if rest.len() == 0 {
    } else {
        let nxt = rest[0];
        let rr = rest.drop_first();
        assert(forall|i: int| 0 <= i < rr.len() ==> rr[i] == rest[i + 1]);
        if nxt.start == cur.end && local_day(nxt.start as int, off as int) == local_day(
            cur.start as int,
            off as int,
        ) {
            let cur2 = Interval { start: cur.start, end: nxt.end };
            lemma_merge_from_props(cur2, rr, off);
        } else {
            lemma_merge_from_props(nxt, rr, off);
            let rec = merge_from(nxt, rr, off);
            assert(runs == seq![cur] + rec);
            assert(forall|k: int| 0 <= k < rec.len() ==> runs[k + 1] == rec[k]);
            assert(runs[0] == cur);
            assert(rec[0].start == nxt.start);
            assert forall|k: int|
                0 <= k < runs.len() - 1 implies (#[trigger] runs[k]).end <= runs[k + 1].start && (
            runs[k].end == runs[k + 1].start ==> local_day(runs[k + 1].start as int, off as int)
                != local_day(runs[k].start as int, off as int)) by {
                if k == 0 {
                    assert(runs[1] == rec[0]);
                    assert(cur.end <= nxt.start);
                } else {
                    assert(runs[k] == rec[k - 1] && runs[k + 1] == rec[k]);
                }
            }
        }
    }
}

/// Dropping short runs keeps the separation discipline; the first kept run
/// either is the first run or starts at or after its end, touching it only
/// across a day boundary.
proof fn lemma_keep_long_separated(s: Seq<Interval>, min_len: i64, off: i64)
    requires
        runs_separated(s, off),
        forall|i: int| 0 <= i < s.len() ==> valid_interval(#[trigger] s[i]),
    ensures
        runs_separated(keep_long(s, min_len), off),
        keep_long(s, min_len).len() > 0 ==> {
            let h = keep_long(s, min_len)[0];
            s.len() > 0 && (h == s[0] || (s[0].end <= h.start && (s[0].end == h.start
                ==> local_day(h.start as int, off as int) != local_day(
                s[0].start as int,
                off as int,
            ))))
        },
    decreases s.len(),
{
    if s.len() > 0 {
        let r = s.drop_first();
        assert(forall|i: int| 0 <= i < r.len() ==> r[i] == s[i + 1]);
        lemma_keep_long_separated(r, min_len, off);
        let keptr = keep_long(r, min_len);
        if s[0].end - s[0].start >= min_len {
            let kept = keep_long(s, min_len);
            assert(kept == seq![s[0]] + keptr);
            assert(kept[0] == s[0]);
            assert(forall|k: int| 0 <= k < keptr.len() ==> kept[k + 1] == keptr[k]);
            assert forall|k: int|
                0 <= k < kept.len() - 1 implies (#[trigger] kept[k]).end <= kept[k + 1].start && (
            kept[k].end == kept[k + 1].start ==> local_day(kept[k + 1].start as int, off as int)
                != local_day(kept[k].start as int, off as int)) by {
                if k == 0 {
                    let h = keptr[0];
                    assert(kept[1] == h);
                    if h == r[0] {
                        assert(s[0].end <= s[1].start);
                    } else {
                        assert(r[0].end <= h.start);
                        assert(s[0].end <= r[0].start);
                        assert(r[0].start < r[0].end);
                    }
                } else {
                    assert(kept[k] == keptr[k - 1] && kept[k + 1] == keptr[k]);
                }
            }
        } else {
            if keptr.len() > 0 && keptr[0] != r[0] {
                assert(r[0].end <= keptr[0].start);
                assert(s[0].end <= r[0].start);
                assert(r[0].start < r[0].end);
            }
        }
    }
}

/// Two consecutive summarized slots never touch or overlap within the same
/// local day (touching survives only across a day boundary)
/// [law: monotonic merge].
pub proof fn lemma_summary_separated(slots: Seq<Interval>, min_len: i64, off: i64)
    requires
        intervals_wf(slots, off),
        chain_disjoint(slots),
    ensures
        runs_separated(kept_slots(slots, min_len, off), off),
{
    crate::sort::lemma_lex_leq_total();
    slots.lemma_sort_by_ensures(lex_leq_fn());
    assert(vstd::relations::sorted_by(slots, lex_leq_fn())) by {
        assert forall|i: int, j: int| 0 <= i < j < slots.len() implies lex_leq_fn()(
            slots[i],
            slots[j],
        ) by {
            lemma_chain_global(slots, i, j);
            assert(lex_leq(slots[i], slots[j]));
        }
    }
    vstd::seq_lib::lemma_sorted_unique(slots, sort_intervals_spec(slots), lex_leq_fn());
    let sorted = sort_intervals_spec(slots);
    assert(sorted == slots);
    if slots.len() > 0 {
        assert(forall|i: int| 0 <= i < slots.drop_first().len() ==> #[trigger] slots.drop_first()[
            i] == slots[i + 1]);
        lemma_merge_from_props(slots[0], slots.drop_first(), off);
        lemma_keep_long_separated(merge_runs(slots, off), min_len, off);
    }
}

/// Disjointness of adjacent slots extends to all pairs, strictly so for
/// non-adjacent ones.
proof fn lemma_chain_global(s: Seq<Interval>, i: int, j: int)
    requires
        chain_disjoint(s),
        forall|k: int| 0 <= k < s.len() ==> valid_interval(#[trigger] s[k]),
        0 <= i < j < s.len(),
    ensures
        s[i].end <= s[j].start,
        j > i + 1 ==> s[i].end < s[j].start,
    decreases j - i,
{
    if j > i + 1 {
        lemma_chain_global(s, i + 1, j);
    }
}

/// Summarizes free slots: merges contiguous same-day slots, drops merged
/// slots shorter than `min_len`, and renders each survivor as
/// "<Weekday> <Month> <Day>: <start>\u{2013}<end>" on a 12-hour clock.
pub fn summarize_slots(slots: &Vec<Interval>, min_len: i64, off: i64) -> (out: Vec<String>)
    requires
        intervals_wf(slots@, off),
    ensures
        out@.len() == kept_slots(slots@, min_len, off).len(),
        forall|k: int|
            0 <= k < out@.len() ==> (#[trigger] out@[k])@ == slot_text(
                kept_slots(slots@, min_len, off)[k],
                off,
            ),
{
    broadcast use vstd::seq_lib::group_to_multiset_ensures;

    let sorted = sort_intervals(slots);
    let ghost full = sorted@;
    proof {
        assert forall|k: int| 0 <= k < full.len() implies valid_interval(#[trigger] full[k])
            && local_in_range(full[k].start as int, off as int) by {
            assert(full.contains(full[k]));
            assert(full.to_multiset().count(full[k]) > 0);
            assert(slots@.to_multiset().count(full[k]) > 0);
            assert(slots@.contains(full[k]));
            let j = choose|j: int| 0 <= j < slots@.len() && slots@[j] == full[k];
            assert(valid_interval(slots@[j]));
        }
    }
    let ghost runs_spec: Seq<Interval> = merge_runs(full, off);
    let mut merged: Vec<Interval> = Vec::new();
    if sorted.len() > 0 {
        let mut cur: Interval = sorted[0];
        let mut i: usize = 1;
        proof {
            assert(full.skip(1) =~= full.drop_first());
        }
        while i < sorted.len()
            invariant
                1 <= i <= sorted.len(),
                sorted@ == full,
                full.len() > 0,
                valid_offset(off as int),
                forall|k: int|
                    0 <= k < full.len() ==> valid_interval(#[trigger] full[k]) && local_in_range(
                        full[k].start as int,
                        off as int,
                    ),
                valid_interval(cur),
                local_in_range(cur.start as int, off as int),
                runs_spec == merge_runs(full, off),
                merged@ + keep_long(merge_from(cur, full.skip(i as int), off), min_len)
                    == keep_long(runs_spec, min_len),
                forall|k: int|
                    0 <= k < merged@.len() ==> valid_interval(#[trigger] merged@[k])
                        && local_in_range(merged@[k].start as int, off as int),
            decreases sorted.len() - i,
        {
            let nxt = sorted[i];
            let ghost tail = full.skip(i as int);
            proof {
                assert(tail[0] == full[i as int]);
                assert(tail.drop_first() =~= full.skip(i + 1));
            }
            let ghost c0 = cur;
            let same_run = nxt.start == cur.end && local_day_of(nxt.start, off) == local_day_of(
                cur.start,
                off,
            );
            if same_run {
                cur = Interval { start: cur.start, end: nxt.end };
                proof {
                    assert(merge_from(c0, tail, off) == merge_from(cur, tail.drop_first(), off));
                    assert(merge_from(cur, tail.drop_first(), off) == merge_from(
                        cur,
                        full.skip(i + 1),
                        off,
                    ));
                }
            } else {
                let ghost pre = merged@;
                if cur.end - cur.start >= min_len {
                    merged.push(cur);
                }
                proof {
                    let rec = merge_from(nxt, full.skip(i + 1), off);
                    assert(merge_from(cur, tail, off) == seq![cur] + rec);
                    assert((seq![cur] + rec)[0] == cur);
                    assert((seq![cur] + rec).drop_first() =~= rec);
                    if cur.end - cur.start >= min_len {
                        assert(keep_long(seq![cur] + rec, min_len) == seq![cur] + keep_long(
                            rec,
                            min_len,
                        ));
                        assert(merged@ + keep_long(rec, min_len) =~= pre + (seq![cur] + keep_long(
                            rec,
                            min_len,
                        )));
                    } else {
                        assert(keep_long(seq![cur] + rec, min_len) == keep_long(rec, min_len));
                    }
                }
                cur = nxt;
            }
            i = i + 1;
        }
        let ghost pre = merged@;
        if cur.end - cur.start >= min_len {
            merged.push(cur);
        }
        proof {
            assert(full.skip(full.len() as int) =~= Seq::<Interval>::empty());
            assert(merge_from(cur, Seq::<Interval>::empty(), off) == seq![cur]);
            assert(seq![cur].drop_first() =~= Seq::<Interval>::empty());
            if cur.end - cur.start >= min_len {
                assert(keep_long(seq![cur], min_len) == seq![cur] + keep_long(
                    Seq::<Interval>::empty(),
                    min_len,
                ));
                assert(merged@ =~= pre + (seq![cur] + Seq::<Interval>::empty()));
                assert(merged@ =~= pre + keep_long(seq![cur], min_len));
            } else {
                assert(seq![cur][0] == cur);
                assert(keep_long(seq![cur], min_len) == keep_long(
                    seq![cur].drop_first(),
                    min_len,
                ));
                assert(keep_long(Seq::<Interval>::empty(), min_len)
                    =~= Seq::<Interval>::empty());
                assert(merged@ =~= pre + keep_long(seq![cur], min_len));
            }
        }
    }
    assert(merged@ == kept_slots(slots@, min_len, off));

    let mut out: Vec<String> = Vec::new();
    let mut k: usize = 0;
    while k < merged.len()
        invariant
            0 <= k <= merged.len(),
            valid_offset(off as int),
            forall|j: int|
                0 <= j < merged@.len() ==> valid_interval(#[trigger] merged@[j]) && local_in_range(
                    merged@[j].start as int,
                    off as int,
                ),
            out@.len() == k,
            forall|j: int|
                0 <= j < k ==> (#[trigger] out@[j])@ == slot_text(merged@[j], off),
        decreases merged.len() - k,
    {
        let text = render_slot(merged[k], off);
        out.push(text);
        k = k + 1;
    }
    out
}

} // verus!
