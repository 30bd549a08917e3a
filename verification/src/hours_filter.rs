//! Business-Hours Filter: intersects each day-bounded free interval with a
//! configured local time-of-day range on the interval's own local day.

use vstd::prelude::*;
use crate::interval::{
    Interval, SECS_PER_DAY, SECS_PER_HOUR, day_start_instant, instant_in_range, intervals_wf,
    local_day, local_day_of, local_in_range, local_tod, valid_interval, valid_offset,
    lemma_day_decomposition, lemma_local_day_tod,
};

verus! {

/// An admissible business-hours configuration: start strictly before end,
/// both whole hours of one day.
pub open spec fn valid_hours(start_hour: u32, end_hour: u32) -> bool {
    start_hour < end_hour && end_hour <= 23
}

/// The instant at `hour:00` local time on the local day holding `t`.
pub open spec fn hour_on_day_of(t: int, hour: int, off: int) -> int {
    day_start_instant(local_day(t, off), off) + hour * SECS_PER_HOUR
}

/// The intersection of one interval with the business hours of its own
/// local day: empty, or a single trimmed interval.
pub open spec fn clip_one(iv: Interval, start_hour: u32, end_hour: u32, off: i64) -> Seq<
    Interval,
> {
    let ds = hour_on_day_of(iv.start as int, start_hour as int, off as int);
    let de = hour_on_day_of(iv.start as int, end_hour as int, off as int);
    let s = if iv.start > ds {
        iv.start as int
    } else {
        ds
    };
    let e = if iv.end < de {
        iv.end as int
    } else {
        de
    };
    if s < e {
        seq![Interval { start: s as i64, end: e as i64 }]
    } else {
        Seq::empty()
    }
}

/// The filter over a whole list, preserving order.
pub open spec fn filter_hours(ivs: Seq<Interval>, start_hour: u32, end_hour: u32, off: i64) -> Seq<
    Interval,
>
    decreases ivs.len(),
{
    if ivs.len() == 0 {
        Seq::empty()
    } else {
        clip_one(ivs[0], start_hour, end_hour, off) + filter_hours(
            ivs.drop_first(),
            start_hour,
            end_hour,
            off,
        )
    }
}

/// What one clip yields: a valid sub-interval of the input whose local
/// times of day lie within the configured hours.
pub proof fn lemma_clip_one_props(iv: Interval, start_hour: u32, end_hour: u32, off: i64)
    requires
        valid_offset(off as int),
        valid_interval(iv),
        local_in_range(iv.start as int, off as int),
        valid_hours(start_hour, end_hour),
    ensures
        forall|k: int|
            0 <= k < clip_one(iv, start_hour, end_hour, off).len() ==> {
                let c = #[trigger] clip_one(iv, start_hour, end_hour, off)[k];
                &&& valid_interval(c)
                &&& local_in_range(c.start as int, off as int)
                &&& iv.start <= c.start
                &&& c.end <= iv.end
                &&& start_hour * SECS_PER_HOUR <= local_tod(c.start as int, off as int)
                    < end_hour * SECS_PER_HOUR
                &&& 0 < local_tod(c.end as int, off as int) <= end_hour * SECS_PER_HOUR
            },
{
    let day = local_day(iv.start as int, off as int);
    let ds = hour_on_day_of(iv.start as int, start_hour as int, off as int);
    let de = hour_on_day_of(iv.start as int, end_hour as int, off as int);
    lemma_local_day_tod(iv.start as int, off as int);
    if clip_one(iv, start_hour, end_hour, off).len() > 0 {
        let c = clip_one(iv, start_hour, end_hour, off)[0];
        let vs = c.start - day_start_instant(day, off as int);
        let ve = c.end - day_start_instant(day, off as int);
        assert(start_hour * SECS_PER_HOUR <= vs < end_hour * SECS_PER_HOUR);
        assert(vs < ve <= end_hour * SECS_PER_HOUR);
        lemma_day_decomposition(day, vs, off as int);
        lemma_day_decomposition(day, ve, off as int);
    }
}

/// Every filtered interval keeps its start at or after `startHour:00` and
/// its end at or before `endHour:00`, in local time of day
/// [law: hours containment].
pub proof fn lemma_hours_containment(ivs: Seq<Interval>, start_hour: u32, end_hour: u32, off: i64)
    requires
        intervals_wf(ivs, off),
        valid_hours(start_hour, end_hour),
    ensures
        forall|k: int|
            0 <= k < filter_hours(ivs, start_hour, end_hour, off).len() ==> {
                let c = #[trigger] filter_hours(ivs, start_hour, end_hour, off)[k];
                &&& valid_interval(c)
                &&& local_in_range(c.start as int, off as int)
                &&& start_hour * SECS_PER_HOUR <= local_tod(c.start as int, off as int)
                    < end_hour * SECS_PER_HOUR
                &&& 0 < local_tod(c.end as int, off as int) <= end_hour * SECS_PER_HOUR
            },
    decreases ivs.len(),
{
    if ivs.len() > 0 {
        lemma_clip_one_props(ivs[0], start_hour, end_hour, off);
        assert(forall|i: int| 0 <= i < ivs.drop_first().len() ==> #[trigger] ivs.drop_first()[i]
            == ivs[i + 1]);
        lemma_hours_containment(ivs.drop_first(), start_hour, end_hour, off);
        let s = filter_hours(ivs, start_hour, end_hour, off);
        let h = clip_one(ivs[0], start_hour, end_hour, off);
        let r = filter_hours(ivs.drop_first(), start_hour, end_hour, off);
        assert(forall|k: int| 0 <= k < h.len() ==> s[k] == h[k]);
        assert(forall|k: int| h.len() <= k < s.len() ==> s[k] == r[k - h.len()]);
    }
}

/// Trims each interval to the configured local business hours on its own
/// local day, discarding what falls outside them. An invalid hour range
/// makes the filter a no-op: the input is returned unchanged.
pub fn filter_slots_by_time_of_day(
    slots: &Vec<Interval>,
    start_hour: u32,
    end_hour: u32,
    off: i64,
) -> (out: Vec<Interval>)
    requires
        intervals_wf(slots@, off),
    ensures
        !valid_hours(start_hour, end_hour) ==> out@ == slots@,
        valid_hours(start_hour, end_hour) ==> out@ == filter_hours(
            slots@,
            start_hour,
            end_hour,
            off,
        ),
{
    if !(start_hour < end_hour && end_hour <= 23) {
        // Defensive fallback: an invalid range from the caller must not
        // abort the slot search, so the slots pass through unfiltered.
        let mut out: Vec<Interval> = Vec::new();
        let mut i: usize = 0;
        while i < slots.len()
            invariant
                0 <= i <= slots.len(),
                out@ =~= slots@.take(i as int),
            decreases slots.len() - i,
        {
            out.push(slots[i]);
            assert(out@ =~= slots@.take(i + 1));
            i = i + 1;
        }
        assert(slots@.take(slots@.len() as int) =~= slots@);
        return out;
    }
    let mut out: Vec<Interval> = Vec::new();
    let mut i: usize = 0;
    proof {
        assert(slots@.take(0) =~= Seq::<Interval>::empty());
        assert(out@ =~= filter_hours(slots@.take(0), start_hour, end_hour, off));
    }
    while i < slots.len()
        invariant
            0 <= i <= slots.len(),
            intervals_wf(slots@, off),
            valid_hours(start_hour, end_hour),
            out@ == filter_hours(slots@.take(i as int), start_hour, end_hour, off),
        decreases slots.len() - i,
    {
        let iv = slots[i];
        assert(valid_interval(iv) && local_in_range(iv.start as int, off as int));
        let day: i64 = local_day_of(iv.start, off);
        proof {
            lemma_local_day_tod(iv.start as int, off as int);
        }
        let day_base: i64 = day * SECS_PER_DAY - off;
        let ds: i64 = day_base + (start_hour as i64) * SECS_PER_HOUR;
        let de: i64 = day_base + (end_hour as i64) * SECS_PER_HOUR;
        let cs: i64 = if iv.start > ds {
            iv.start
        } else {
            ds
        };
        let ce: i64 = if iv.end < de {
            iv.end
        } else {
            de
        };
        let ghost pre = out@;
        if cs < ce {
            out.push(Interval { start: cs, end: ce });
        }
        proof {
            assert(out@ =~= pre + clip_one(iv, start_hour, end_hour, off));
            lemma_filter_hours_app(slots@.take(i as int), seq![iv], start_hour, end_hour, off);
            assert(seq![iv][0] == iv);
            assert(seq![iv].drop_first() =~= Seq::<Interval>::empty());
            assert(filter_hours(seq![iv].drop_first(), start_hour, end_hour, off)
                =~= Seq::<Interval>::empty());
            assert(filter_hours(seq![iv], start_hour, end_hour, off) == clip_one(
                iv,
                start_hour,
                end_hour,
                off,
            ) + filter_hours(seq![iv].drop_first(), start_hour, end_hour, off));
            assert(clip_one(iv, start_hour, end_hour, off) + Seq::<Interval>::empty()
                =~= clip_one(iv, start_hour, end_hour, off));
            assert(slots@.take(i as int) + seq![iv] =~= slots@.take(i + 1));
        }
        i = i + 1;
    }
    assert(slots@.take(slots@.len() as int) =~= slots@);
    out
}

/// Filtering distributes over concatenation.
pub proof fn lemma_filter_hours_app(
    a: Seq<Interval>,
    b: Seq<Interval>,
    start_hour: u32,
    end_hour: u32,
    off: i64,
)
    ensures
        filter_hours(a + b, start_hour, end_hour, off) == filter_hours(a, start_hour, end_hour, off)
            + filter_hours(b, start_hour, end_hour, off),
    decreases a.len(),
{
    if a.len() == 0 {
        assert(a + b =~= b);
        assert(filter_hours(a, start_hour, end_hour, off) + filter_hours(
            b,
            start_hour,
            end_hour,
            off,
        ) =~= filter_hours(b, start_hour, end_hour, off));
    } else {
        assert((a + b).drop_first() =~= a.drop_first() + b);
        lemma_filter_hours_app(a.drop_first(), b, start_hour, end_hour, off);
        assert((a + b)[0] == a[0]);
        assert(clip_one(a[0], start_hour, end_hour, off) + (filter_hours(
            a.drop_first(),
            start_hour,
            end_hour,
            off,
        ) + filter_hours(b, start_hour, end_hour, off)) =~= (clip_one(
            a[0],
            start_hour,
            end_hour,
            off,
        ) + filter_hours(a.drop_first(), start_hour, end_hour, off)) + filter_hours(
            b,
            start_hour,
            end_hour,
            off,
        ));
    }
}

} // verus!
