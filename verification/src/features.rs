//! Per-sample feature derivation: the sliding-window movement score and
//! the posture aggregate that feeds the histogram.
//!
//! Measurements are carried as fixed-point integers. The movement score
//! is returned as the raw window sum; the conventional score value is
//! that sum divided by the window size and by the normalization constant
//! 8, a division left to the presentation layer so that the value here
//! stays exact.

use crate::histogram::columns_view;
use crate::histogram::is_histogram_of;
use crate::histogram::limits_view;
use crate::histogram::valid_histogram_input;
use crate::histogram::NDHistogram;
use vstd::math::abs;
use vstd::prelude::*;

verus! {

/// Largest accepted movement-score window.
pub const MAX_WINDOW: usize = 1_048_576;

/// One 3-axis accelerometer sample.
#[derive(Debug, Clone, Copy, PartialEq, Eq, Structural)]
pub struct AccSample {
    pub x: i32,
    pub y: i32,
    pub z: i32,
}

/// The per-axis absolute first difference between two consecutive
/// samples, summed over the three axes.
pub open spec fn abs_diff3(a: AccSample, b: AccSample) -> int {
    abs(b.x - a.x) + abs(b.y - a.y) + abs(b.z - a.z) as int
}

/// Sum of the consecutive-sample differences `from .. to` of `acc`:
/// difference `j` compares samples `j` and `j + 1`.
pub open spec fn sum_diffs(acc: Seq<AccSample>, from: int, to: int) -> int
    decreases to - from,
{
    if from >= to {
        0
    } else {
        abs_diff3(acc[from], acc[from + 1]) + sum_diffs(acc, from + 1, to)
    }
}

/// Sum of the first `k` entries of a sequence (all of them when the
/// sequence is shorter).
pub open spec fn sum_prefix(s: Seq<i64>, k: int) -> int
    decreases s.len(),
{
    if k <= 0 || s.len() == 0 {
        0
    } else {
        sum_prefix(s.drop_last(), k)
            + if s.len() <= k {
                s.last() as int
            } else {
                0
            }
    }
}

/// The sliding-window movement score of a fixed-rate accelerometer
/// stream: entry `i` is the sum of all three axes' absolute
/// sample-to-sample differences across the `n` differences before
/// sample `i`. The first `n` entries, where no full window exists, are
/// exactly 0 by policy, and the output is as long as the input. The
/// conventional score divides each entry by `n` and then by 8.
#[verifier::loop_isolation(false)]
pub fn movement_score(acc: &Vec<AccSample>, n: usize) -> (r: Vec<i64>)
    requires
        1 <= n <= MAX_WINDOW,
    ensures
        r@.len() == acc@.len(),
        forall|i: int| 0 <= i < n && i < r@.len() ==> r@[i] == 0,
        forall|i: int| n <= i < r@.len() ==> r@[i] == sum_diffs(acc@, i - n, i),
{
    let len = acc.len();
    let mut r: Vec<i64> = Vec::new();
    let mut i: usize = 0;
    while i < len && i < n
        invariant
            i <= len,
            i <= n,
            r@.len() == i,
            forall|k: int| 0 <= k < i ==> r@[k] == 0,
        decreases len - i,
    {
        r.push(0);
        i = i + 1;
    }
    while i < len
        invariant
            n <= i || i == len,
            i <= len,
            r@.len() == i,
            n <= MAX_WINDOW,
            forall|k: int| 0 <= k < n && k < i ==> r@[k] == 0,
            forall|k: int| n <= k < i ==> r@[k] == sum_diffs(acc@, k - n, k),
        decreases len - i,
    {
        let mut s: i64 = 0;
        let mut j: usize = i - n;
        proof {
            assert(sum_diffs(acc@, i - n, i - n) == 0);
        }
        while j < i
            invariant
                i - n <= j <= i,
                i < len,
                len == acc@.len(),
                n <= i,
                n <= MAX_WINDOW,
                0 <= s,
                s == sum_diffs(acc@, i - n, j as int),
                s <= 0x3_0000_0000i64 * (j - (i - n)),
            decreases i - j,
        {
            let a = acc[j];
            let b = acc[j + 1];
            let dx = abs_i32_diff(b.x, a.x);
            let dy = abs_i32_diff(b.y, a.y);
            let dz = abs_i32_diff(b.z, a.z);
            proof {
                lemma_sum_diffs_snoc(acc@, i - n, j as int);
                assert((j - (i - n)) + 1 <= MAX_WINDOW);
                assert(s + dx + dy + dz <= 0x3_0000_0000i64 * ((j + 1) - (i - n)))
                    by (nonlinear_arith)
                    requires
                        s <= 0x3_0000_0000i64 * (j - (i - n)),
                        0 <= dx + dy + dz <= 0x3_0000_0000i64,
                ;
                assert(0x3_0000_0000i64 * ((j + 1) - (i - n)) <= 0x3_0000_0000i64 * (
                MAX_WINDOW as i64)) by (nonlinear_arith)
                    requires
                        (j + 1) - (i - n) <= MAX_WINDOW as i64,
                        0 <= (j + 1) - (i - n),
                ;
            }
            s = s + dx + dy + dz;
            j = j + 1;
        }
        r.push(s);
        i = i + 1;
    }
    r
}

/// The absolute difference of two 32-bit axis readings, exact in `i64`.
fn abs_i32_diff(b: i32, a: i32) -> (r: i64)
    ensures
        r == abs(b - a),
        0 <= r <= 0x1_0000_0000i64,
{
    let d = (b as i64) - (a as i64);
    if d < 0 {
        -d
    } else {
        d
    }
}

/// Extending a difference window by one step on the right adds that
/// step's difference.
proof fn lemma_sum_diffs_snoc(acc: Seq<AccSample>, from: int, j: int)
    requires
        from <= j,
    ensures
        sum_diffs(acc, from, j + 1) == sum_diffs(acc, from, j) + abs_diff3(acc[j], acc[j + 1]),
    decreases j - from,
{
    if from < j {
        lemma_sum_diffs_snoc(acc, from + 1, j);
    } else {
        assert(sum_diffs(acc, j + 1, j + 1) == 0);
    }
}

/// The posture aggregate of one sample's derived joint angles: the sum
/// of the first 9 angle values.
pub fn posture_sum(angles: &Vec<i64>) -> (r: i64)
    requires
        forall|k: int|
            0 <= k < angles@.len() ==> -0x7FFF_FFFFi64 <= #[trigger] angles@[k] <= 0x7FFF_FFFFi64,
    ensures
        r == sum_prefix(angles@, 9),
{
    let mut s: i64 = 0;
    let mut k: usize = 0;
    let stop: usize = if angles.len() < 9 {
        angles.len()
    } else {
        9
    };
    proof {
        lemma_sum_prefix_take(angles@, 9, 0);
    }
    while k < stop
        invariant
            0 <= k <= stop,
            stop == if angles@.len() < 9 {
                angles@.len() as int
            } else {
                9
            },
            forall|j: int|
                0 <= j < angles@.len() ==> -0x7FFF_FFFFi64 <= #[trigger] angles@[j]
                    <= 0x7FFF_FFFFi64,
            s == sum_prefix(angles@.take(k as int), 9),
            -0x8_0000_0000i64 * k <= s <= 0x8_0000_0000i64 * k,
        decreases stop - k,
    {
        proof {
            lemma_sum_prefix_take(angles@, 9, k + 1);
            assert(angles@.take(k + 1).drop_last() =~= angles@.take(k as int));
            assert(-0x8_0000_0000i64 * (k + 1) <= s + angles@[k as int] <= 0x8_0000_0000i64 * (
            k + 1)) by (nonlinear_arith)
                requires
                    -0x8_0000_0000i64 * k <= s <= 0x8_0000_0000i64 * k,
                    -0x7FFF_FFFFi64 <= angles@[k as int] <= 0x7FFF_FFFFi64,
            ;
            assert(0x8_0000_0000i64 * (k + 1) <= 0x8_0000_0000i64 * 9) by (nonlinear_arith)
                requires
                    0 <= k + 1 <= 9,
            ;
        }
        s = s + angles[k];
        k = k + 1;
    }
    proof {
        if angles@.len() < 9 {
            assert(angles@.take(stop as int) =~= angles@);
        } else {
            lemma_sum_prefix_long(angles@, 9);
        }
    }
    s
}

/// `sum_prefix` of a short prefix: taking `a >= k` elements does not
/// change the sum of the first `k`.
proof fn lemma_sum_prefix_long(s: Seq<i64>, k: int)
    requires
        0 <= k <= s.len(),
    ensures
        sum_prefix(s, k) == sum_prefix(s.take(k), k),
    decreases s.len(),
{
    if s.len() > k {
        assert(s.drop_last().take(k) =~= s.take(k));
        lemma_sum_prefix_long(s.drop_last(), k);
    } else {
        assert(s.take(k) =~= s);
    }
}

/// Unfolding `sum_prefix` along a growing prefix: the sum over
/// `take(a)` gains element `a - 1` exactly while `a <= k`.
proof fn lemma_sum_prefix_take(s: Seq<i64>, k: int, a: int)
    requires
        0 <= a <= s.len(),
        a <= k,
    ensures
        sum_prefix(s.take(a), k) == if a == 0 {
            0
        } else {
            sum_prefix(s.take(a - 1), k) + s[a - 1]
        },
{
    if a > 0 {
        assert(s.take(a).drop_last() =~= s.take(a - 1));
        assert(s.take(a).last() == s[a - 1]);
    }
}

/// The per-sample posture aggregates of a run of samples, each the sum
/// of the sample's first 9 derived joint angles. This is the first of
/// the two histogram features.
pub fn posture_sums(rows: &Vec<Vec<i64>>) -> (r: Vec<i64>)
    requires
        forall|i: int, k: int|
            0 <= i < rows@.len() && 0 <= k < rows@[i]@.len() ==> -0x7FFF_FFFFi64
                <= #[trigger] rows@[i]@[k] <= 0x7FFF_FFFFi64,
    ensures
        r@.len() == rows@.len(),
        forall|i: int| 0 <= i < r@.len() ==> r@[i] == sum_prefix(rows@[i]@, 9),
{
    let mut r: Vec<i64> = Vec::new();
    let mut i: usize = 0;
    while i < rows.len()
        invariant
            i <= rows@.len(),
            r@.len() == i,
            forall|j: int, k: int|
                0 <= j < rows@.len() && 0 <= k < rows@[j]@.len() ==> -0x7FFF_FFFFi64
                    <= #[trigger] rows@[j]@[k] <= 0x7FFF_FFFFi64,
            forall|j: int| 0 <= j < i ==> r@[j] == sum_prefix(rows@[j]@, 9),
        decreases rows@.len() - i,
    {
        let s = posture_sum(&rows[i]);
        r.push(s);
        i = i + 1;
    }
    r
}

/// The second histogram feature for one sample, in half-units: the
/// pitch-like scalar of the acceleration vector minus 1.5 times the
/// arctangent term of the last two angle-axis coordinates. Both inputs
/// come from the external geometry computation; doubling keeps the 1.5
/// factor exact in integers.
pub fn pitch_feature(pitch: i64, atan_term: i64) -> (r: i64)
    requires
        -0x7FFF_FFFFi64 <= pitch <= 0x7FFF_FFFFi64,
        -0x7FFF_FFFFi64 <= atan_term <= 0x7FFF_FFFFi64,
    ensures
        r == 2 * pitch - 3 * atan_term,
{
    2 * pitch - 3 * atan_term
}

/// The 2-D posture distribution: dimension 0 carries the pitch-like
/// scalars, dimension 1 the per-sample angle sums, binned into `n`
/// baskets per dimension under the given limit overrides.
pub fn posture_histogram(
    pitches: Vec<i64>,
    angle_sums: Vec<i64>,
    n: usize,
    limits: Option<Vec<Option<(i64, i64)>>>,
) -> (r: NDHistogram)
    requires
        valid_histogram_input(seq![pitches@, angle_sums@], limits_view(limits), n as int),
    ensures
        r.wf(),
        is_histogram_of(r, seq![pitches@, angle_sums@], limits_view(limits), n as int),
{
    let mut data: Vec<Vec<i64>> = Vec::new();
    data.push(pitches);
    data.push(angle_sums);
    proof {
        assert(columns_view(data) =~= seq![data@[0]@, data@[1]@]);
    }
    NDHistogram::new(data, n, limits)
}

} // verus!
