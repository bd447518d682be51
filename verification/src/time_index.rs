//! The per-sample timestamp column and its temporal segmentation.
//!
//! A [`TimeIndex`] is the read-only sequence of epoch-millisecond
//! timestamps of a tabular telemetry source. It is partitioned into
//! contiguous activity blocks separated by idle gaps above a threshold,
//! or into calendar days; each partition is handed back as the
//! sub-selection of rows whose timestamps fall inside the window.

use crate::stats::seq_max;
use crate::stats::seq_min;
use crate::stats::Extrema;
use crate::timespan::clamp_ts;
use crate::timespan::day_of;
use crate::timespan::spec_day_span;
use crate::timespan::Timespan;
use crate::timespan::MAX_CALENDAR_TS;
use crate::timespan::MIN_CALENDAR_TS;
use crate::CoreError;
use vstd::prelude::*;

verus! {

/// Clamp bound rejecting corrupt device clocks: timestamps before this
/// instant are pulled up when the overall span of a source is computed.
pub const VALIDITY_BEGIN: i64 = 1_672_531_200_000;

/// Clamp bound rejecting corrupt device clocks: timestamps after this
/// instant are pulled down when the overall span of a source is computed.
pub const VALIDITY_END: i64 = 1_704_067_200_000;

/// Ascending order, duplicates allowed.
pub open spec fn is_sorted(s: Seq<i64>) -> bool {
    forall|i: int, j: int| 0 <= i < j < s.len() ==> s[i] <= s[j]
}

/// The ascending reordering of `s`: the unique sorted sequence with the
/// same elements, multiplicity included.
pub open spec fn sorted_of(s: Seq<i64>) -> Seq<i64> {
    choose|t: Seq<i64>| is_sorted(t) && t.to_multiset() == s.to_multiset()
}

/// The rows of `s` that fall inside the closed window `sp`, in order.
pub open spec fn filter_span(s: Seq<i64>, sp: Timespan) -> Seq<i64> {
    s.filter(|t: i64| sp.begin <= t <= sp.end)
}

/// Number of consecutive pairs of the sorted sequence `s` whose distance
/// exceeds `threshold`, looking at positions `i` and above.
pub open spec fn count_gaps_from(s: Seq<i64>, threshold: i64, i: int) -> int
    decreases s.len() - i,
{
    if i < 0 || i >= s.len() - 1 {
        0
    } else if s[i + 1] - s[i] > threshold {
        1 + count_gaps_from(s, threshold, i + 1)
    } else {
        count_gaps_from(s, threshold, i + 1)
    }
}

/// Number of idle gaps above `threshold` in the sorted sequence `s`.
pub open spec fn count_gaps(s: Seq<i64>, threshold: i64) -> int {
    count_gaps_from(s, threshold, 0)
}

/// The activity blocks of the sorted sequence `s` from position `i` on,
/// with the current block open since position `start`: every idle gap
/// above `threshold` closes the block at the gap's left end and opens the
/// next one at its right end.
pub open spec fn spec_blocks_from(s: Seq<i64>, threshold: i64, start: int, i: int) -> Seq<Timespan>
    recommends
        0 <= start <= i <= s.len() - 1,
    decreases s.len() - i,
{
    if i < 0 || i >= s.len() - 1 {
        seq![Timespan { begin: s[start], end: s[s.len() - 1] }]
    } else if s[i + 1] - s[i] > threshold {
        seq![Timespan { begin: s[start], end: s[i] }] + spec_blocks_from(
            s,
            threshold,
            i + 1,
            i + 1,
        )
    } else {
        spec_blocks_from(s, threshold, start, i + 1)
    }
}

/// The activity blocks of the sorted, non-empty sequence `s` under the
/// idle-gap `threshold`.
pub open spec fn spec_segment(s: Seq<i64>, threshold: i64) -> Seq<Timespan>
    recommends
        s.len() >= 1,
{
    spec_blocks_from(s, threshold, 0, 0)
}

/// Two sorted sequences over the same multiset of elements are equal.
pub proof fn lemma_sorted_unique(a: Seq<i64>, b: Seq<i64>)
    requires
        is_sorted(a),
        is_sorted(b),
        a.to_multiset() == b.to_multiset(),
    ensures
        a == b,
    decreases a.len(),
{
    broadcast use vstd::seq_lib::group_to_multiset_ensures;
    broadcast use vstd::multiset::group_multiset_axioms;

    if a.len() == 0 {
        assert(b.to_multiset().len() == 0);
        assert(a =~= b);
    } else {
        assert(a.to_multiset().len() == b.to_multiset().len());
        let x = a.last();
        let y = b.last();
        assert(b.len() > 0) by {
            assert(a.to_multiset().len() == a.len());
            assert(b.to_multiset().len() == b.len());
        }
        assert(a.contains(x)) by {
            assert(a[a.len() - 1] == x);
        }
        assert(b.contains(y)) by {
            assert(b[b.len() - 1] == y);
        }
        assert(b.contains(x)) by {
            assert(b.to_multiset().count(x) > 0);
        }
        assert(a.contains(y)) by {
            assert(a.to_multiset().count(y) > 0);
        }
        let i = choose|i: int| 0 <= i < b.len() && b[i] == x;
        let j = choose|j: int| 0 <= j < a.len() && a[j] == y;
        assert(x <= y);
        assert(y <= x);
        let a1 = a.drop_last();
        let b1 = b.drop_last();
        assert(a =~= a1.push(x));
        assert(b =~= b1.push(x));
        assert(a1.push(x).to_multiset() =~= a1.to_multiset().insert(x));
        assert(b1.push(x).to_multiset() =~= b1.to_multiset().insert(x));
        assert(a1.to_multiset() =~= b1.to_multiset()) by {
            assert forall|e: i64| a1.to_multiset().count(e) == b1.to_multiset().count(e) by {
                vstd::multiset::lemma_insert_increases_count_by_1(a1.to_multiset(), x);
                vstd::multiset::lemma_insert_increases_count_by_1(b1.to_multiset(), x);
                if e != x {
                    vstd::multiset::lemma_insert_other_elements_unchanged(
                        a1.to_multiset(),
                        x,
                        e,
                    );
                    vstd::multiset::lemma_insert_other_elements_unchanged(
                        b1.to_multiset(),
                        x,
                        e,
                    );
                }
                assert(a1.to_multiset().insert(x).count(e) == b1.to_multiset().insert(x).count(
                    e,
                ));
            }
        }
        assert(is_sorted(a1)) by {
            assert forall|p: int, q: int| 0 <= p < q < a1.len() implies a1[p] <= a1[q] by {
                assert(a1[p] == a[p] && a1[q] == a[q]);
            }
        }
        assert(is_sorted(b1)) by {
            assert forall|p: int, q: int| 0 <= p < q < b1.len() implies b1[p] <= b1[q] by {
                assert(b1[p] == b[p] && b1[q] == b[q]);
            }
        }
        lemma_sorted_unique(a1, b1);
        assert(a =~= b);
    }
}

/// `sorted_of` picks exactly the witness at hand: any sorted reordering
/// of `s` is the sorted reordering of `s`.
pub proof fn lemma_sorted_of_is(s: Seq<i64>, w: Seq<i64>)
    requires
        is_sorted(w),
        w.to_multiset() == s.to_multiset(),
    ensures
        sorted_of(s) == w,
{
    assert(is_sorted(sorted_of(s)) && sorted_of(s).to_multiset() == s.to_multiset()) by {
        assert(is_sorted(w) && w.to_multiset() == s.to_multiset());
    }
    lemma_sorted_unique(sorted_of(s), w);
}

/// An already ascending sequence is its own sorted reordering.
pub proof fn lemma_sorted_of_sorted(s: Seq<i64>)
    requires
        is_sorted(s),
    ensures
        sorted_of(s) == s,
{
    lemma_sorted_of_is(s, s);
}

/// Relies on `<[i64]>::sort` from std: sorts the vector in place into
/// ascending order; the result is a permutation of the input.
#[verifier::external_body]
fn sort_in_place(v: &mut Vec<i64>)
    ensures
        is_sorted(final(v)@),
        final(v)@.to_multiset() == old(v)@.to_multiset(),
{
    v.sort();
}

/// Read-only view of the per-sample timestamps of a telemetry source,
/// in row order, epoch milliseconds.
#[derive(Debug, Clone)]
pub struct TimeIndex {
    pub times: Vec<i64>,
}

/// A value paired with the calendar day it belongs to.
#[derive(Debug, Clone)]
pub struct DatedData<T> {
    pub time: i64,
    pub data: T,
}

impl TimeIndex {
    /// Wraps a timestamp column.
    pub fn new(times: Vec<i64>) -> (r: TimeIndex)
        ensures
            r.times@ == times@,
    {
        TimeIndex { times }
    }

    /// Number of rows of the source.
    pub fn row_count(&self) -> (r: usize)
        ensures
            r == self.times@.len(),
    {
        self.times.len()
    }

    /// The rows whose timestamp lies inside the closed window `sp`.
    pub fn between(&self, sp: &Timespan) -> (r: TimeIndex)
        ensures
            r.times@ == filter_span(self.times@, *sp),
    {
        let mut out: Vec<i64> = Vec::new();
        let mut i: usize = 0;
        let ghost pred = |t: i64| sp.begin <= t <= sp.end;
        proof {
            assert(self.times@.take(0).filter(pred) =~= out@) by {
                reveal(Seq::filter);
            }
        }
        while i < self.times.len()
            invariant
                i <= self.times@.len(),
                pred == (|t: i64| sp.begin <= t <= sp.end),
                out@ == self.times@.take(i as int).filter(pred),
            decreases self.times@.len() - i,
        {
            let t = self.times[i];
            proof {
                self.times@.lemma_take_succ_push(i as int);
                let taken = self.times@.take(i as int);
                assert(self.times@.take(i + 1).filter(pred) == if pred(t) {
                    taken.filter(pred).push(t)
                } else {
                    taken.filter(pred)
                }) by {
                    reveal(Seq::filter);
                    assert(self.times@.take(i + 1).drop_last() =~= taken);
                    assert(self.times@.take(i + 1).last() == t);
                }
            }
            if sp.begin <= t && t <= sp.end {
                out.push(t);
            }
            i = i + 1;
        }
        proof {
            assert(self.times@.take(self.times@.len() as int) =~= self.times@);
        }
        TimeIndex { times: out }
    }

    /// The boolean row mask of the closed window `sp`, as consumed by the
    /// mask filter of a tabular source.
    pub fn mask(&self, sp: &Timespan) -> (r: Vec<bool>)
        ensures
            r@.len() == self.times@.len(),
            forall|i: int|
                0 <= i < r@.len() ==> r@[i] == (sp.begin <= self.times@[i] <= sp.end),
    {
        let mut out: Vec<bool> = Vec::new();
        let mut i: usize = 0;
        while i < self.times.len()
            invariant
                i <= self.times@.len(),
                out@.len() == i,
                forall|k: int|
                    0 <= k < i ==> out@[k] == (sp.begin <= self.times@[k] <= sp.end),
            decreases self.times@.len() - i,
        {
            let t = self.times[i];
            out.push(sp.begin <= t && t <= sp.end);
            i = i + 1;
        }
        out
    }

    /// The overall span of the source: smallest and largest timestamp,
    /// each clamped into the validity window that rejects corrupt device
    /// clocks. An empty source has no span.
    pub fn timespan(&self) -> (r: Option<Timespan>)
        ensures
            r is Some <==> self.times@.len() > 0,
            r matches Some(ts) ==> {
                &&& ts.begin == clamp_ts(
                    seq_min(self.times@) as int,
                    VALIDITY_BEGIN as int,
                    VALIDITY_END as int,
                )
                &&& ts.end == clamp_ts(
                    seq_max(self.times@) as int,
                    VALIDITY_BEGIN as int,
                    VALIDITY_END as int,
                )
                &&& ts.wf()
            },
    {
        if self.times.len() == 0 {
            return None;
        }
        let (lo, hi) = self.times.extrema();
        proof {
            crate::stats::lemma_seq_min(self.times@);
            crate::stats::lemma_seq_max(self.times@);
            let j = choose|j: int|
                0 <= j < self.times@.len() && self.times@[j] == seq_min(self.times@);
            assert(seq_min(self.times@) <= seq_max(self.times@));
        }
        let begin = crate::timespan::clamp_i64(lo, VALIDITY_BEGIN, VALIDITY_END);
        let end = crate::timespan::clamp_i64(hi, VALIDITY_BEGIN, VALIDITY_END);
        Some(Timespan { begin, end })
    }

    /// Partitions the source into contiguous activity blocks: the
    /// timestamps are sorted ascending and every idle gap above
    /// `threshold` (milliseconds) separates two blocks. Fewer than two
    /// samples leave no gap to inspect and are rejected.
    pub fn segment_activity(&self, threshold: i64) -> (r: Result<Vec<Timespan>, CoreError>)
        ensures
            self.times@.len() < 2 <==> r is Err,
            r is Err ==> r == Err::<Vec<Timespan>, CoreError>(CoreError::InsufficientData),
            r matches Ok(blocks) ==> blocks@ == spec_segment(sorted_of(self.times@), threshold),
    {
        if self.times.len() < 2 {
            return Err(CoreError::InsufficientData);
        }
        let mut v: Vec<i64> = Vec::new();
        let mut i: usize = 0;
        while i < self.times.len()
            invariant
                i <= self.times@.len(),
                v@ == self.times@.take(i as int),
            decreases self.times@.len() - i,
        {
            let t = self.times[i];
            proof {
                self.times@.lemma_take_succ_push(i as int);
            }
            v.push(t);
            i = i + 1;
        }
        proof {
            assert(self.times@.take(self.times@.len() as int) =~= self.times@);
        }
        sort_in_place(&mut v);
        let ghost w = v@;
        proof {
            lemma_sorted_of_is(self.times@, w);
            broadcast use vstd::seq_lib::group_to_multiset_ensures;

            assert(w.len() == w.to_multiset().len());
            assert(self.times@.len() == self.times@.to_multiset().len());
        }
        let n = v.len();
        let mut blocks: Vec<Timespan> = Vec::new();
        let mut last: usize = 0;
        let mut i: usize = 0;
        proof {
            assert(Seq::<Timespan>::empty() + spec_blocks_from(w, threshold, 0, 0)
                =~= spec_blocks_from(w, threshold, 0, 0));
        }
        while i < n - 1
            invariant
                v@ == w,
                is_sorted(w),
                n == w.len(),
                n >= 2,
                0 <= last <= i <= n - 1,
                spec_blocks_from(w, threshold, 0, 0) == blocks@ + spec_blocks_from(
                    w,
                    threshold,
                    last as int,
                    i as int,
                ),
            decreases n - 1 - i,
        {
            let gap: i128 = (v[i + 1] as i128) - (v[i] as i128);
            if gap > threshold as i128 {
                proof {
                    assert(spec_blocks_from(w, threshold, last as int, i as int) == seq![
                        Timespan { begin: w[last as int], end: w[i as int] },
                    ] + spec_blocks_from(w, threshold, i + 1, i + 1));
                    assert(blocks@ + (seq![Timespan { begin: w[last as int], end: w[i as int] }]
                        + spec_blocks_from(w, threshold, i + 1, i + 1)) =~= (blocks@.push(
                        Timespan { begin: w[last as int], end: w[i as int] },
                    )) + spec_blocks_from(w, threshold, i + 1, i + 1));
                }
                blocks.push(Timespan { begin: v[last], end: v[i] });
                last = i + 1;
            }
            i = i + 1;
        }
        proof {
            assert(spec_blocks_from(w, threshold, last as int, (n - 1) as int) == seq![
                Timespan { begin: w[last as int], end: w[n - 1] },
            ]);
            assert(blocks@ + seq![Timespan { begin: w[last as int], end: w[n - 1] }]
                =~= blocks@.push(Timespan { begin: w[last as int], end: w[n - 1] }));
        }
        blocks.push(Timespan { begin: v[last], end: v[n - 1] });
        Ok(blocks)
    }
}

/// The overall span of a non-empty timestamp column, endpoints clamped
/// into the validity window.
pub open spec fn spec_source_span(s: Seq<i64>) -> Timespan
    recommends
        s.len() > 0,
{
    Timespan {
        begin: clamp_ts(seq_min(s) as int, VALIDITY_BEGIN as int, VALIDITY_END as int) as i64,
        end: clamp_ts(seq_max(s) as int, VALIDITY_BEGIN as int, VALIDITY_END as int) as i64,
    }
}

/// The row-count threshold below which a day partition is discarded.
pub open spec fn min_len_of(m: Option<usize>) -> int {
    match m {
        Some(v) => v as int,
        None => 0,
    }
}

impl TimeIndex {
    /// The sub-selection of one calendar day.
    pub fn day(&self, date: i64) -> (r: TimeIndex)
        requires
            -crate::timespan::MAX_DAY <= date <= crate::timespan::MAX_DAY,
        ensures
            r.times@ == filter_span(self.times@, spec_day_span(date as int)),
    {
        let sp = Timespan::to_day(date);
        self.between(&sp)
    }

    /// Partitions the source into calendar days over its overall span and
    /// keeps, in ascending day order, exactly the days whose row count
    /// exceeds `min_length` (0 when absent). An empty source yields no
    /// partitions.
    pub fn get_days(&self, min_length: Option<usize>) -> (r: Vec<DatedData<TimeIndex>>)
        ensures
            self.times@.len() == 0 ==> r@.len() == 0,
            forall|k: int|
                0 <= k < r@.len() ==> {
                    let e = #[trigger] r@[k];
                    &&& day_of(spec_source_span(self.times@).begin as int) <= e.time <= day_of(
                        spec_source_span(self.times@).end as int,
                    )
                    &&& e.data.times@ == filter_span(self.times@, spec_day_span(e.time as int))
                    &&& e.data.times@.len() > min_len_of(min_length)
                },
            forall|k1: int, k2: int|
                0 <= k1 < k2 < r@.len() ==> (#[trigger] r@[k1]).time < (#[trigger] r@[k2]).time,
            self.times@.len() > 0 ==> forall|d: int|
                day_of(spec_source_span(self.times@).begin as int) <= d <= day_of(
                    spec_source_span(self.times@).end as int,
                ) && (#[trigger] filter_span(self.times@, spec_day_span(d))).len() > min_len_of(
                    min_length,
                ) ==> exists|k: int| 0 <= k < r@.len() && r@[k].time == d,
    {
        let ts = self.timespan();
        match ts {
            None => Vec::new(),
            Some(sp) => {
                proof {
                    assert(sp == spec_source_span(self.times@));
                }
                let dayspans = sp.days();
                let ghost first = day_of(sp.begin as int);
                proof {
                    vstd::arithmetic::div_mod::lemma_div_pos_is_pos(
                        sp.begin as int,
                        crate::MS_PER_DAY as int,
                    );
                    vstd::arithmetic::div_mod::lemma_div_is_ordered(
                        sp.end as int,
                        VALIDITY_END as int,
                        crate::MS_PER_DAY as int,
                    );
                    assert(day_of(VALIDITY_END as int) == 19723) by {
                        vstd::arithmetic::div_mod::lemma_fundamental_div_mod_converse(
                            VALIDITY_END as int,
                            crate::MS_PER_DAY as int,
                            19723,
                            0,
                        );
                    }
                }
                let ml: usize = match min_length {
                    Some(v) => v,
                    None => 0,
                };
                let mut out: Vec<DatedData<TimeIndex>> = Vec::new();
                let mut j: usize = 0;
                while j < dayspans.len()
                    invariant
                        sp == spec_source_span(self.times@),
                        self.times@.len() > 0,
                        first == day_of(sp.begin as int),
                        dayspans@ == crate::timespan::spec_days(sp),
                        dayspans@.len() == day_of(sp.end as int) - first + 1,
                        0 <= first,
                        first + dayspans@.len() <= 20000,
                        j <= dayspans@.len(),
                        ml == min_len_of(min_length),
                        forall|k: int|
                            0 <= k < out@.len() ==> {
                                let e = #[trigger] out@[k];
                                &&& first <= e.time < first + j
                                &&& e.data.times@ == filter_span(
                                    self.times@,
                                    spec_day_span(e.time as int),
                                )
                                &&& e.data.times@.len() > min_len_of(min_length)
                            },
                        forall|k1: int, k2: int|
                            0 <= k1 < k2 < out@.len() ==> (#[trigger] out@[k1]).time < (
                            #[trigger] out@[k2]).time,
                        forall|d: int|
                            first <= d < first + j && (#[trigger] filter_span(
                                self.times@,
                                spec_day_span(d),
                            )).len() > min_len_of(min_length) ==> exists|k: int|
                                0 <= k < out@.len() && out@[k].time == d,
                    decreases dayspans@.len() - j,
                {
                    let (d, dsp) = dayspans[j];
                    proof {
                        assert(dayspans@[j as int] == (
                            ((first + j) as i64),
                            spec_day_span(first + j),
                        ));
                    }
                    let sub = self.between(&dsp);
                    let cnt = sub.times.len();
                    let ghost prev = out@;
                    if cnt > ml {
                        out.push(DatedData { time: d, data: sub });
                    }
                    proof {
                        assert(filter_span(self.times@, spec_day_span(first + j)).len() == cnt);
                        if cnt > min_len_of(min_length) {
                            assert(out@[out@.len() - 1].time == first + j);
                        }
                        assert forall|d2: int|
                            first <= d2 < first + j + 1 && (#[trigger] filter_span(
                                self.times@,
                                spec_day_span(d2),
                            )).len() > min_len_of(min_length) implies exists|k: int|
                            0 <= k < out@.len() && out@[k].time == d2 by {
                            if d2 < first + j {
                                let k0 = choose|k0: int|
                                    0 <= k0 < prev.len() && prev[k0].time == d2;
                                assert(out@[k0].time == d2);
                            } else {
                                assert(out@[out@.len() - 1].time == d2);
                            }
                        }
                    }
                    j = j + 1;
                }
                proof {
                    assert(day_of(sp.end as int) == first + (dayspans@.len() - 1));
                }
                out
            },
        }
    }

    /// Cuts the source into one sub-selection per activity block, the
    /// idle-gap threshold being `duration` milliseconds.
    pub fn split_into_time_chunks(&self, duration: i64) -> (r: Result<
        Vec<TimeIndex>,
        CoreError,
    >)
        ensures
            self.times@.len() < 2 <==> r is Err,
            r is Err ==> r == Err::<Vec<TimeIndex>, CoreError>(CoreError::InsufficientData),
            r matches Ok(chunks) ==> {
                let blocks = spec_segment(sorted_of(self.times@), duration);
                &&& chunks@.len() == blocks.len()
                &&& forall|k: int|
                    0 <= k < chunks@.len() ==> (#[trigger] chunks@[k]).times@ == filter_span(
                        self.times@,
                        blocks[k],
                    )
            },
    {
        match self.segment_activity(duration) {
            Err(e) => Err(e),
            Ok(blocks) => {
                let ghost bs = spec_segment(sorted_of(self.times@), duration);
                let mut out: Vec<TimeIndex> = Vec::new();
                let mut j: usize = 0;
                while j < blocks.len()
                    invariant
                        blocks@ == bs,
                        j <= blocks@.len(),
                        out@.len() == j,
                        forall|k: int|
                            0 <= k < j ==> (#[trigger] out@[k]).times@ == filter_span(
                                self.times@,
                                bs[k],
                            ),
                    decreases blocks@.len() - j,
                {
                    let sub = self.between(&blocks[j]);
                    out.push(sub);
                    j = j + 1;
                }
                Ok(out)
            },
        }
    }
}

/// What activity segmentation guarantees on any sorted, non-empty input:
/// the number of blocks is one more than the number of idle gaps above
/// the threshold; every block is an ordered span whose endpoints are
/// input timestamps; consecutive blocks are separated by more than the
/// threshold, so they are pairwise disjoint and ascend.
pub proof fn lemma_segment_properties(s: Seq<i64>, threshold: i64)
    requires
        is_sorted(s),
        s.len() >= 1,
    ensures
        spec_segment(s, threshold).len() == 1 + count_gaps(s, threshold),
        spec_segment(s, threshold)[0].begin == s[0],
        spec_segment(s, threshold).last().end == s[s.len() - 1],
        forall|k: int|
            0 <= k < spec_segment(s, threshold).len() ==> (#[trigger] spec_segment(
                s,
                threshold,
            )[k]).wf(),
        forall|k: int|
            0 <= k < spec_segment(s, threshold).len() ==> s.contains(
                (#[trigger] spec_segment(s, threshold)[k]).begin,
            ) && s.contains(spec_segment(s, threshold)[k].end),
        forall|k: int|
            0 <= k < spec_segment(s, threshold).len() - 1 ==> (#[trigger] spec_segment(
                s,
                threshold,
            )[k + 1]).begin - spec_segment(s, threshold)[k].end > threshold,
        forall|k: int|
            0 <= k < spec_segment(s, threshold).len() - 1 ==> (#[trigger] spec_segment(
                s,
                threshold,
            )[k]).end <= spec_segment(s, threshold)[k + 1].begin,
{
    lemma_blocks_from_properties(s, threshold, 0, 0);
}

/// Activity blocks are pairwise disjoint and ascend: any earlier block
/// ends no later than any later block begins.
pub proof fn lemma_segment_pairwise_disjoint(s: Seq<i64>, threshold: i64, k1: int, k2: int)
    requires
        is_sorted(s),
        s.len() >= 1,
        0 <= k1 < k2 < spec_segment(s, threshold).len(),
    ensures
        spec_segment(s, threshold)[k1].end <= spec_segment(s, threshold)[k2].begin,
    decreases k2 - k1,
{
    lemma_segment_properties(s, threshold);
    let b = spec_segment(s, threshold);
    if k2 == k1 + 1 {
    } else {
        lemma_segment_pairwise_disjoint(s, threshold, k1, k2 - 1);
        assert(b[k2 - 1].end <= b[(k2 - 1) + 1].begin);
    }
}

proof fn lemma_blocks_from_properties(s: Seq<i64>, threshold: i64, start: int, i: int)
    requires
        is_sorted(s),
        0 <= start <= i <= s.len() - 1,
    ensures
        count_gaps_from(s, threshold, i) >= 0,
        spec_blocks_from(s, threshold, start, i).len() == 1 + count_gaps_from(s, threshold, i),
        spec_blocks_from(s, threshold, start, i)[0].begin == s[start],
        spec_blocks_from(s, threshold, start, i).last().end == s[s.len() - 1],
        forall|k: int|
            0 <= k < spec_blocks_from(s, threshold, start, i).len() ==> (
            #[trigger] spec_blocks_from(s, threshold, start, i)[k]).wf(),
        forall|k: int|
            0 <= k < spec_blocks_from(s, threshold, start, i).len() ==> s.contains(
                (#[trigger] spec_blocks_from(s, threshold, start, i)[k]).begin,
            ) && s.contains(spec_blocks_from(s, threshold, start, i)[k].end),
        forall|k: int|
            0 <= k < spec_blocks_from(s, threshold, start, i).len() - 1 ==> (
            #[trigger] spec_blocks_from(s, threshold, start, i)[k + 1]).begin
                - spec_blocks_from(s, threshold, start, i)[k].end > threshold,
        forall|k: int|
            0 <= k < spec_blocks_from(s, threshold, start, i).len() - 1 ==> (
            #[trigger] spec_blocks_from(s, threshold, start, i)[k]).end <= spec_blocks_from(
                s,
                threshold,
                start,
                i,
            )[k + 1].begin,
    decreases s.len() - i,
{
    let b = spec_blocks_from(s, threshold, start, i);
    if i >= s.len() - 1 {
        assert(b == seq![Timespan { begin: s[start], end: s[s.len() - 1] }]);
        assert(b[0].wf());
        assert(s.contains(s[start])) by {
            assert(s[start] == s[start]);
        }
        assert(s.contains(s[s.len() - 1]));
    } else if s[i + 1] - s[i] > threshold {
        lemma_blocks_from_properties(s, threshold, i + 1, i + 1);
        let rest = spec_blocks_from(s, threshold, i + 1, i + 1);
        let head = Timespan { begin: s[start], end: s[i] };
        assert(b == seq![head] + rest);
        assert(rest.len() >= 1);
        assert(b.len() == 1 + rest.len());
        assert(b[0] == head);
        assert(s.contains(s[start]));
        assert(s.contains(s[i]));
        assert(rest[0].begin == s[i + 1]);
        assert forall|k: int| 0 <= k < b.len() implies (#[trigger] b[k]).wf() && s.contains(
            b[k].begin,
        ) && s.contains(b[k].end) by {
            if k > 0 {
                assert(b[k] == rest[k - 1]);
            }
        }
        assert forall|k: int| 0 <= k < b.len() - 1 implies (#[trigger] b[k + 1]).begin - b[k].end
            > threshold && b[k].end <= b[k + 1].begin by {
            if k == 0 {
                assert(b[1] == rest[0]);
            } else {
                assert(b[k] == rest[k - 1]);
                assert(b[k + 1] == rest[k]);
                assert(rest[(k - 1) + 1].begin - rest[k - 1].end > threshold);
                assert(rest[k - 1].end <= rest[(k - 1) + 1].begin);
            }
        }
        assert(b.last() == rest.last()) by {
            assert(b[b.len() - 1] == rest[rest.len() - 1]);
        }
    } else {
        lemma_blocks_from_properties(s, threshold, start, i + 1);
        assert(b == spec_blocks_from(s, threshold, start, i + 1));
    }
}

} // verus!

