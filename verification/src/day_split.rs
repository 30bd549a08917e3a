//! Day Splitter: subdivides free intervals at local midnight so that no
//! interval straddles a local calendar-day boundary.

use vstd::prelude::*;
use crate::interval::{
    Interval, instant_in_range, intervals_wf, local_day, local_in_range, next_midnight,
    next_midnight_of, valid_interval, valid_offset, lemma_same_day_until_midnight,
};

verus! {

/// The interval lies entirely within one local calendar day (its last
/// contained instant shares the local day of its start).
pub open spec fn day_bounded(iv: Interval, off: i64) -> bool {
    local_day(iv.start as int, off as int) == local_day(iv.end - 1, off as int)
}

/// The day-bounded segments of one interval: cut at each local midnight
/// strictly inside it, in order.
pub open spec fn split_one(iv: Interval, off: i64) -> Seq<Interval>
    decreases iv.end - iv.start
        when valid_offset(off as int) && local_in_range(iv.start as int, off as int)
            && instant_in_range(iv.start as int) && iv.start < iv.end
{
    let nm = next_midnight(iv.start as int, off as int);
    if nm >= iv.end {
        seq![iv]
    } else {
        seq![Interval { start: iv.start, end: nm as i64 }] + split_one(
            Interval { start: nm as i64, end: iv.end },
            off,
        )
    }
}

/// The splitter over a whole list, preserving order.
pub open spec fn split_all(ivs: Seq<Interval>, off: i64) -> Seq<Interval>
    decreases ivs.len(),
{
    if ivs.len() == 0 {
        Seq::empty()
    } else {
        split_one(ivs[0], off) + split_all(ivs.drop_first(), off)
    }
}

/// The segments of one interval partition it: they are non-empty, abut one
/// another, start and end where the interval does, and each lies within a
/// single local day.
pub proof fn lemma_split_one_props(iv: Interval, off: i64)
    requires
        valid_offset(off as int),
        valid_interval(iv),
        local_in_range(iv.start as int, off as int),
    ensures
        split_one(iv, off).len() >= 1,
        split_one(iv, off)[0].start == iv.start,
        split_one(iv, off).last().end == iv.end,
        forall|k: int|
            0 <= k < split_one(iv, off).len() ==> valid_interval(#[trigger] split_one(iv, off)[k])
                && iv.start <= split_one(iv, off)[k].start && split_one(iv, off)[k].end <= iv.end
                && local_in_range(split_one(iv, off)[k].start as int, off as int) && day_bounded(
                split_one(iv, off)[k],
                off,
            ),
        forall|k: int|
            0 <= k < split_one(iv, off).len() - 1 ==> (#[trigger] split_one(iv, off)[k]).end
                == split_one(iv, off)[k + 1].start,
    decreases iv.end - iv.start,
{
    let nm = next_midnight(iv.start as int, off as int);
    assert(iv.start < nm <= iv.start + 86400);
    if nm >= iv.end {
        lemma_same_day_until_midnight(iv.start as int, iv.end - 1, off as int);
        assert(split_one(iv, off) =~= seq![iv]);
    } else {
        let first = Interval { start: iv.start, end: nm as i64 };
        let rest_iv = Interval { start: nm as i64, end: iv.end };
        let rest = split_one(rest_iv, off);
        assert(split_one(iv, off) == seq![first] + rest);
        lemma_same_day_until_midnight(iv.start as int, nm - 1, off as int);
        lemma_split_one_props(rest_iv, off);
        assert(forall|k: int| 0 <= k < rest.len() ==> (seq![first] + rest)[k + 1] == rest[k]);
        assert(split_one(iv, off).last() == rest.last());
    }
}

/// A day-bounded interval is returned whole.
pub proof fn lemma_split_one_identity(iv: Interval, off: i64)
    requires
        valid_offset(off as int),
        valid_interval(iv),
        local_in_range(iv.start as int, off as int),
        day_bounded(iv, off),
    ensures
        split_one(iv, off) == seq![iv],
{
    let nm = next_midnight(iv.start as int, off as int);
    if nm < iv.end {
        lemma_same_day_until_midnight(iv.start as int, nm - 1, off as int);
        assert(local_day(nm, off as int) == local_day(iv.start as int, off as int) + 1);
        assert(local_day(iv.end - 1, off as int) >= local_day(nm, off as int)) by {
            crate::interval::lemma_local_day_monotone(nm, iv.end - 1, off as int);
        }
        assert(false);
    }
}

/// Splitting distributes over concatenation.
pub proof fn lemma_split_all_app(a: Seq<Interval>, b: Seq<Interval>, off: i64)
    ensures
        split_all(a + b, off) == split_all(a, off) + split_all(b, off),
    decreases a.len(),
{
    if a.len() == 0 {
        assert(a + b =~= b);
        assert(split_all(a, off) + split_all(b, off) =~= split_all(b, off));
    } else {
        assert((a + b).drop_first() =~= a.drop_first() + b);
        lemma_split_all_app(a.drop_first(), b, off);
        assert((a + b)[0] == a[0]);
        assert(split_one(a[0], off) + (split_all(a.drop_first(), off) + split_all(b, off))
            =~= (split_one(a[0], off) + split_all(a.drop_first(), off)) + split_all(b, off));
    }
}

/// A list of day-bounded intervals is returned unchanged.
proof fn lemma_split_all_identity(ivs: Seq<Interval>, off: i64)
    requires
        intervals_wf(ivs, off),
        forall|i: int| 0 <= i < ivs.len() ==> day_bounded(#[trigger] ivs[i], off),
    ensures
        split_all(ivs, off) == ivs,
    decreases ivs.len(),
{
    if ivs.len() == 0 {
        assert(split_all(ivs, off) =~= ivs);
    } else {
        lemma_split_one_identity(ivs[0], off);
        assert(forall|i: int| 0 <= i < ivs.drop_first().len() ==> #[trigger] ivs.drop_first()[i]
            == ivs[i + 1]);
        lemma_split_all_identity(ivs.drop_first(), off);
        assert(seq![ivs[0]] + ivs.drop_first() =~= ivs);
    }
}

/// Every output of the splitter is a valid interval on a single local day
/// [law: day-boundedness].
pub proof fn lemma_split_all_day_bounded(ivs: Seq<Interval>, off: i64)
    requires
        intervals_wf(ivs, off),
    ensures
        forall|k: int|
            0 <= k < split_all(ivs, off).len() ==> valid_interval(
                #[trigger] split_all(ivs, off)[k],
            ) && local_in_range(split_all(ivs, off)[k].start as int, off as int) && day_bounded(
                split_all(ivs, off)[k],
                off,
            ),
    decreases ivs.len(),
{
    if ivs.len() > 0 {
        lemma_split_one_props(ivs[0], off);
        assert(forall|i: int| 0 <= i < ivs.drop_first().len() ==> #[trigger] ivs.drop_first()[i]
            == ivs[i + 1]);
        lemma_split_all_day_bounded(ivs.drop_first(), off);
        let s = split_all(ivs, off);
        let h = split_one(ivs[0], off);
        let r = split_all(ivs.drop_first(), off);
        assert(forall|k: int| 0 <= k < h.len() ==> s[k] == h[k]);
        assert(forall|k: int| h.len() <= k < s.len() ==> s[k] == r[k - h.len()]);
    }
}

/// Re-running the Day Splitter on its own output returns it unchanged
/// [law: idempotence].
pub proof fn lemma_split_all_idempotent(ivs: Seq<Interval>, off: i64)
    requires
        intervals_wf(ivs, off),
    ensures
        split_all(split_all(ivs, off), off) == split_all(ivs, off),
{
    lemma_split_all_day_bounded(ivs, off);
    lemma_split_all_identity(split_all(ivs, off), off);
}

/// Appends the day-bounded segments of `iv` to `out`.
fn push_segments(out: &mut Vec<Interval>, iv: Interval, off: i64)
    requires
        valid_offset(off as int),
        valid_interval(iv),
        local_in_range(iv.start as int, off as int),
    ensures
        final(out)@ == old(out)@ + split_one(iv, off),
{
    let mut cur: Interval = iv;
    let mut nm = next_midnight_of(cur.start, off);
    while nm < cur.end
        invariant
            valid_offset(off as int),
            valid_interval(cur),
            local_in_range(cur.start as int, off as int),
            nm == next_midnight(cur.start as int, off as int),
            out@ + split_one(cur, off) == old(out)@ + split_one(iv, off),
        decreases cur.end - cur.start,
    {
        let ghost c0 = cur;
        out.push(Interval { start: cur.start, end: nm });
        cur = Interval { start: nm, end: cur.end };
        proof {
            assert(split_one(c0, off) == seq![Interval { start: c0.start, end: nm }] + split_one(
                cur,
                off,
            ));
            assert(out@ + split_one(cur, off) =~= old(out)@ + split_one(iv, off));
        }
        nm = next_midnight_of(cur.start, off);
    }
    out.push(cur);
    assert(split_one(cur, off) =~= seq![cur]);
    assert(out@ =~= old(out)@ + split_one(iv, off));
}

/// Splits every free interval at local midnight, so that each output
/// interval lies within a single local calendar day; order is preserved and
/// each input interval's segments exactly cover it.
pub fn split_at_midnight(windows: &Vec<Interval>, off: i64) -> (out: Vec<Interval>)
    requires
        intervals_wf(windows@, off),
    ensures
        out@ == split_all(windows@, off),
        forall|k: int|
            0 <= k < out@.len() ==> valid_interval(#[trigger] out@[k]) && day_bounded(
                out@[k],
                off,
            ),
{
    let mut out: Vec<Interval> = Vec::new();
    let mut i: usize = 0;
    proof {
        assert(windows@.take(0) =~= Seq::<Interval>::empty());
        assert(out@ =~= split_all(windows@.take(0), off));
    }
    while i < windows.len()
        invariant
            0 <= i <= windows.len(),
            intervals_wf(windows@, off),
            out@ == split_all(windows@.take(i as int), off),
        decreases windows.len() - i,
    {
        let iv = windows[i];
        push_segments(&mut out, iv, off);
        proof {
            lemma_split_all_app(windows@.take(i as int), seq![iv], off);
            assert(seq![iv][0] == iv);
            assert(seq![iv].drop_first() =~= Seq::<Interval>::empty());
            assert(split_all(seq![iv].drop_first(), off) =~= Seq::<Interval>::empty());
            assert(split_all(seq![iv], off) == split_one(iv, off) + split_all(
                seq![iv].drop_first(),
                off,
            ));
            assert(split_one(iv, off) + Seq::<Interval>::empty() =~= split_one(iv, off));
            assert(windows@.take(i as int) + seq![iv] =~= windows@.take(i + 1));
        }
        i = i + 1;
    }
    assert(windows@.take(windows@.len() as int) =~= windows@);
    proof {
        lemma_split_all_day_bounded(windows@, off);
    }
    out
}

} // verus!
