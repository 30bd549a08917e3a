//! Sorting of intervals by start instant (ties broken by end instant), used
//! by the free-window calculator and the slot summarizer.

use vstd::prelude::*;
use vstd::relations::{sorted_by, total_ordering};
use crate::interval::Interval;

verus! {

/// Lexicographic order on intervals: by start, then by end.
pub open spec fn lex_leq(a: Interval, b: Interval) -> bool {
    a.start < b.start || (a.start == b.start && a.end <= b.end)
}

/// The relation used throughout as a first-class function.
pub open spec fn lex_leq_fn() -> spec_fn(Interval, Interval) -> bool {
    |a: Interval, b: Interval| lex_leq(a, b)
}

/// `lex_leq` is a total order on intervals.
pub proof fn lemma_lex_leq_total()
    ensures
        total_ordering(lex_leq_fn()),
{
}

/// The canonical sorted permutation of a sequence of intervals.
pub open spec fn sort_intervals_spec(s: Seq<Interval>) -> Seq<Interval> {
    s.sort_by(lex_leq_fn())
}

/// Sorting yields the same elements, ordered by `lex_leq`.
pub proof fn lemma_sort_intervals_spec(s: Seq<Interval>)
    ensures
        sort_intervals_spec(s).len() == s.len(),
        sort_intervals_spec(s).to_multiset() =~= s.to_multiset(),
        sorted_by(sort_intervals_spec(s), lex_leq_fn()),
{
    lemma_lex_leq_total();
    s.lemma_sort_by_ensures(lex_leq_fn());
    broadcast use vstd::seq_lib::group_to_multiset_ensures;

    assert(s.to_multiset().len() == s.len());
    assert(sort_intervals_spec(s).to_multiset().len() == sort_intervals_spec(s).len());
}

/// Sorts intervals by start (ties by end) with insertion sort.
pub fn sort_intervals(v: &Vec<Interval>) -> (out: Vec<Interval>)
    ensures
        out@ == sort_intervals_spec(v@),
        sorted_by(out@, lex_leq_fn()),
        out@.to_multiset() == v@.to_multiset(),
        out@.len() == v@.len(),
{
    broadcast use vstd::seq_lib::group_to_multiset_ensures;
    broadcast use vstd::seq_lib::to_multiset_insert;

    let mut out: Vec<Interval> = Vec::new();
    let ghost full = v@;
    let mut i: usize = 0;
    while i < v.len()
        invariant
            0 <= i <= v.len(),
            v@ == full,
            sorted_by(out@, lex_leq_fn()),
            out@.to_multiset() == full.take(i as int).to_multiset(),
            out@.len() == i,
        decreases v.len() - i,
    {
        let x = v[i];
        // Find the first position whose element is not below `x`.
        let mut j: usize = 0;
        while j < out.len() && (out[j].start < x.start || (out[j].start == x.start
            && out[j].end <= x.end))
            invariant
                0 <= j <= out.len(),
                forall|k: int| 0 <= k < j ==> lex_leq(#[trigger] out@[k], x),
            decreases out.len() - j,
        {
            j = j + 1;
        }
        assert(j < out@.len() ==> !lex_leq(out@[j as int], x));
        assert(forall|k: int| j <= k < out@.len() ==> lex_leq(x, #[trigger] out@[k])) by {
            assert forall|k: int| j <= k < out@.len() implies lex_leq(x, #[trigger] out@[k]) by {
                if k > j {
                    assert(lex_leq_fn()(out@[j as int], out@[k]));
                    assert(lex_leq(out@[j as int], out@[k]));
                }
            }
        }
        let ghost pre = out@;
        out.insert(j, x);
        assert(sorted_by(out@, lex_leq_fn())) by {
            pre.insert_ensures(j as int, x);
            assert forall|a: int, b: int| 0 <= a < b < out@.len() implies lex_leq_fn()(
                out@[a],
                out@[b],
            ) by {
                assert(lex_leq_fn()(out@[a], out@[b]) == lex_leq(out@[a], out@[b]));
            }
        }
        assert(full.take(i as int).push(x) =~= full.take(i + 1));
        assert(out@.to_multiset() == full.take(i + 1).to_multiset()) by {
            broadcast use vstd::seq_lib::group_to_multiset_ensures;
            broadcast use vstd::seq_lib::to_multiset_insert;

            assert(out@ == pre.insert(j as int, x));
            assert(pre.insert(j as int, x).to_multiset() == pre.to_multiset().insert(x));
            assert(full.take(i as int).push(x).to_multiset() == full.take(
                i as int,
            ).to_multiset().insert(x));
        }
        i = i + 1;
    }
    assert(full.take(v@.len() as int) =~= full);
    proof {
        lemma_lex_leq_total();
        full.lemma_sort_by_ensures(lex_leq_fn());
        vstd::seq_lib::lemma_sorted_unique(out@, sort_intervals_spec(full), lex_leq_fn());
    }
    out
}

} // verus!
