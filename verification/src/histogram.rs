//! The n-dimensional feature histogram.
//!
//! Parallel, equally long feature columns are binned into a grid of `n`
//! baskets per dimension. Bin edges along dimension `d` are `n + 1`
//! equally spaced rational points across that dimension's limits — the
//! caller-supplied `(lo, hi)` override, or the observed extrema. Each
//! sample's per-dimension bin coordinates are flattened into one basket
//! index in mixed radix, dimension 0 most significant; a sample whose
//! flattened index leaves the grid is silently dropped. The histogram is
//! immutable once built.

use crate::stats::seq_max;
use crate::stats::seq_min;
use crate::stats::Extrema;
use vstd::arithmetic::power::pow;
use vstd::prelude::*;

verus! {

/// Largest magnitude of a feature value or limit the binning accepts, so
/// that every intermediate product stays well inside `i64`.
pub const MAX_FEATURE: i64 = 2_147_483_647;

/// Largest accepted bins-per-dimension count.
pub const MAX_BINS: usize = 1_048_576;

/// One bin edge, the exact rational `num / den`.
#[derive(Debug, Clone, Copy, PartialEq, Eq, Structural)]
pub struct BinEdge {
    pub num: i64,
    pub den: i64,
}

/// An n-dimensional histogram: a flat basket array of length
/// `n^dim` and, per dimension, its `n + 1` bin edges. The histogram
/// built from empty input is the canonical empty value with no baskets
/// and no borders.
#[derive(Debug, PartialEq, Eq)]
pub struct NDHistogram {
    pub baskets: Vec<u64>,
    pub borders: Vec<Vec<BinEdge>>,
}

/// The feature columns as a sequence of sequences.
pub open spec fn columns_view(data: Vec<Vec<i64>>) -> Seq<Seq<i64>> {
    Seq::new(data@.len(), |d: int| data@[d]@)
}

/// The optional limit overrides as an optional sequence.
pub open spec fn limits_view(limits: Option<Vec<Option<(i64, i64)>>>) -> Option<
    Seq<Option<(i64, i64)>>,
> {
    match limits {
        Some(l) => Some(l@),
        None => None,
    }
}

/// The lower limit of dimension `d`: the override when one is given,
/// else the observed minimum.
pub open spec fn spec_lo(
    data: Seq<Seq<i64>>,
    limits: Option<Seq<Option<(i64, i64)>>>,
    d: int,
) -> int {
    match limits {
        Some(l) => match l[d] {
            Some(p) => p.0 as int,
            None => seq_min(data[d]) as int,
        },
        None => seq_min(data[d]) as int,
    }
}

/// The upper limit of dimension `d`: the override when one is given,
/// else the observed maximum.
pub open spec fn spec_hi(
    data: Seq<Seq<i64>>,
    limits: Option<Seq<Option<(i64, i64)>>>,
    d: int,
) -> int {
    match limits {
        Some(l) => match l[d] {
            Some(p) => p.1 as int,
            None => seq_max(data[d]) as int,
        },
        None => seq_max(data[d]) as int,
    }
}

/// Bin edge `i` of a dimension with limits `[lo, hi]` and `n` bins:
/// the exact rational `lo + (hi - lo) * i / n`, kept as a fraction over
/// the common denominator `n`.
pub open spec fn spec_border(lo: int, hi: int, n: int, i: int) -> BinEdge {
    BinEdge { num: (lo * n + (hi - lo) * i) as i64, den: n as i64 }
}

/// All `n + 1` bin edges of one dimension.
pub open spec fn spec_borders_dim(lo: int, hi: int, n: int) -> Seq<BinEdge> {
    Seq::new((n + 1) as nat, |i: int| spec_border(lo, hi, n, i))
}

/// The bin coordinate of value `v` in a dimension with limits
/// `[lo, hi]` and `n` bins. Bins are left-closed; the top edge belongs
/// to the last bin. Values below `lo` saturate to bin 0; values above
/// `hi` follow the raw formula and leave the grid through the flattened
/// index; a degenerate dimension (`hi <= lo`) keeps only the value at
/// `lo` and pushes every other sample off the grid (`off_grid` is the
/// grid size, so such a sample is always dropped).
pub open spec fn bin_coord(v: int, lo: int, hi: int, n: int, off_grid: int) -> int {
    if v < lo {
        0
    } else if hi <= lo {
        if v == lo {
            0
        } else {
            off_grid
        }
    } else if v == hi {
        n - 1
    } else {
        (v - lo) * n / (hi - lo)
    }
}

/// The per-dimension bin coordinates of sample `i`.
pub open spec fn spec_coords(
    data: Seq<Seq<i64>>,
    limits: Option<Seq<Option<(i64, i64)>>>,
    n: int,
    i: int,
) -> Seq<int> {
    Seq::new(
        data.len(),
        |d: int|
            bin_coord(
                data[d][i] as int,
                spec_lo(data, limits, d),
                spec_hi(data, limits, d),
                n,
                pow(n, data.len()),
            ),
    )
}

/// Mixed-radix flattening of bin coordinates with radix `n`,
/// dimension 0 most significant.
pub open spec fn flat_index(coords: Seq<int>, n: int) -> int
    decreases coords.len(),
{
    if coords.len() == 0 {
        0
    } else {
        flat_index(coords.drop_last(), n) * n + coords.last()
    }
}

/// The basket index sample `i` falls into.
pub open spec fn sample_index(
    data: Seq<Seq<i64>>,
    limits: Option<Seq<Option<(i64, i64)>>>,
    n: int,
    i: int,
) -> int {
    flat_index(spec_coords(data, limits, n, i), n)
}

/// The basket counts after binning samples `0 .. upto`: each sample
/// increments the basket its flattened index points at, and is dropped
/// when that index leaves the grid.
pub open spec fn spec_baskets(
    data: Seq<Seq<i64>>,
    limits: Option<Seq<Option<(i64, i64)>>>,
    n: int,
    upto: int,
) -> Seq<int>
    decreases upto,
{
    if upto <= 0 {
        Seq::new(pow(n, data.len()) as nat, |k: int| 0)
    } else {
        let prev = spec_baskets(data, limits, n, upto - 1);
        let idx = sample_index(data, limits, n, upto - 1);
        if 0 <= idx < prev.len() {
            prev.update(idx, prev[idx] + 1)
        } else {
            prev
        }
    }
}

/// Sum of a sequence of counts.
pub open spec fn seq_sum(s: Seq<int>) -> int
    decreases s.len(),
{
    if s.len() == 0 {
        0
    } else {
        seq_sum(s.drop_last()) + s.last()
    }
}

/// The shape the binning inputs must have: parallel columns of equal
/// length, one optional limit pair per column, and values small enough
/// for exact `i64` arithmetic. An empty input is always accepted.
pub open spec fn valid_histogram_input(
    data: Seq<Seq<i64>>,
    limits: Option<Seq<Option<(i64, i64)>>>,
    n: int,
) -> bool {
    &&& forall|d: int| 0 <= d < data.len() ==> (#[trigger] data[d]).len() == data[0].len()
    &&& limits matches Some(l) ==> l.len() == data.len()
    &&& (data.len() > 0 && data[0].len() > 0) ==> {
        &&& 1 <= n <= MAX_BINS
        &&& pow(n, data.len()) <= usize::MAX
        &&& forall|d: int, i: int|
            0 <= d < data.len() && 0 <= i < data[d].len() ==> -MAX_FEATURE <= #[trigger] data[d][i]
                <= MAX_FEATURE
        &&& limits matches Some(l) ==> forall|d: int|
            0 <= d < l.len() ==> ((#[trigger] l[d]) matches Some(p) ==> -MAX_FEATURE <= p.0
                <= MAX_FEATURE && -MAX_FEATURE <= p.1 <= MAX_FEATURE)
    }
}

/// What the constructor returns: the canonical empty value on empty
/// input, else the borders and the basket counts of every sample.
pub open spec fn is_histogram_of(
    h: NDHistogram,
    data: Seq<Seq<i64>>,
    limits: Option<Seq<Option<(i64, i64)>>>,
    n: int,
) -> bool {
    if data.len() == 0 || data[0].len() == 0 {
        h.baskets@.len() == 0 && h.borders@.len() == 0
    } else {
        &&& h.borders@.len() == data.len()
        &&& forall|d: int|
            0 <= d < data.len() ==> (#[trigger] h.borders@[d])@ == spec_borders_dim(
                spec_lo(data, limits, d),
                spec_hi(data, limits, d),
                n,
            )
        &&& h.baskets@.len() == pow(n, data.len())
        &&& forall|k: int|
            0 <= k < h.baskets@.len() ==> (#[trigger] h.baskets@[k]) as int == spec_baskets(
                data,
                limits,
                n,
                data[0].len() as int,
            )[k]
    }
}

impl NDHistogram {
    /// Number of dimensions of the grid.
    pub open spec fn spec_dim(self) -> int {
        self.borders@.len() as int
    }

    /// Bins per dimension; 0 for the empty histogram.
    pub open spec fn spec_n(self) -> int {
        if self.borders@.len() == 0 {
            0
        } else {
            self.borders@[0]@.len() - 1
        }
    }

    /// Internal consistency: every dimension carries `n + 1` edges and
    /// the basket array covers the full grid.
    pub open spec fn wf(self) -> bool {
        &&& self.spec_dim() == 0 ==> self.baskets@.len() == 0
        &&& self.spec_dim() > 0 ==> {
            &&& self.spec_n() >= 1
            &&& forall|d: int|
                0 <= d < self.borders@.len() ==> (#[trigger] self.borders@[d])@.len()
                    == self.spec_n() + 1
            &&& self.baskets@.len() == pow(self.spec_n(), self.spec_dim() as nat)
        }
    }

    /// Bins per dimension; 0 for the empty histogram.
    pub fn n(&self) -> (r: usize)
        requires
            self.wf(),
        ensures
            r == self.spec_n(),
    {
        if self.borders.len() == 0 {
            0
        } else {
            self.borders[0].len() - 1
        }
    }

    /// Number of dimensions; 0 for the empty histogram.
    pub fn dim(&self) -> (r: usize)
        ensures
            r == self.spec_dim(),
    {
        self.borders.len()
    }

    /// Bins `data` — one sequence per dimension, all equally long — into
    /// `n` baskets per dimension. `limits` may override the binning range
    /// of single dimensions; dimensions without an override use their
    /// observed extrema. Empty input yields the canonical empty
    /// histogram. Samples whose flattened index leaves the grid are
    /// silently dropped.
    #[verifier::loop_isolation(false)]
    pub fn new(data: Vec<Vec<i64>>, n: usize, limits: Option<Vec<Option<(i64, i64)>>>) -> (r:
        NDHistogram)
        requires
            valid_histogram_input(columns_view(data), limits_view(limits), n as int),
        ensures
            r.wf(),
            is_histogram_of(r, columns_view(data), limits_view(limits), n as int),
            columns_view(data).len() > 0 && columns_view(data)[0].len() > 0 ==> r.spec_dim()
                == columns_view(data).len() && r.spec_n() == n,
    {
        let ghost dv = columns_view(data);
        let ghost lv = limits_view(limits);
        proof {
            assert(dv.len() == data@.len());
        }
        if data.len() == 0 || data[0].len() == 0 {
            proof {
                if data@.len() > 0 {
                    assert(dv[0] =~= data@[0]@);
                }
            }
            return NDHistogram { baskets: Vec::new(), borders: Vec::new() };
        }
        let dcount = data.len();
        let scount = data[0].len();
        proof {
            assert(dv[0] =~= data@[0]@);
            assert(dv[0].len() == scount);
        }
        let nn = n as i64;

        // Per-dimension binning range: override where given, observed
        // extrema elsewhere.
        let mut los: Vec<i64> = Vec::new();
        let mut his: Vec<i64> = Vec::new();
        let mut d: usize = 0;
        while d < dcount
            invariant
                d <= dcount,
                los@.len() == d,
                his@.len() == d,
                forall|k: int| 0 <= k < d ==> (#[trigger] los@[k]) == spec_lo(dv, lv, k),
                forall|k: int| 0 <= k < d ==> (#[trigger] his@[k]) == spec_hi(dv, lv, k),
                forall|k: int|
                    0 <= k < d ==> -MAX_FEATURE <= (#[trigger] los@[k]) <= MAX_FEATURE,
                forall|k: int|
                    0 <= k < d ==> -MAX_FEATURE <= (#[trigger] his@[k]) <= MAX_FEATURE,
            decreases dcount - d,
        {
            proof {
                assert(dv[d as int] =~= data@[d as int]@);
                assert(dv[d as int].len() == dv[0].len());
            }
            let pair: (i64, i64) = match &limits {
                Some(l) => {
                    match l[d] {
                        Some(p) => p,
                        None => data[d].extrema(),
                    }
                },
                None => data[d].extrema(),
            };
            proof {
                crate::stats::lemma_seq_min(data@[d as int]@);
                crate::stats::lemma_seq_max(data@[d as int]@);
                let jm = choose|jm: int|
                    0 <= jm < data@[d as int]@.len() && data@[d as int]@[jm] == seq_min(
                        data@[d as int]@,
                    );
                let jx = choose|jx: int|
                    0 <= jx < data@[d as int]@.len() && data@[d as int]@[jx] == seq_max(
                        data@[d as int]@,
                    );
                assert(dv[d as int][jm] == data@[d as int]@[jm]);
                assert(dv[d as int][jx] == data@[d as int]@[jx]);
                assert(pair.0 == spec_lo(dv, lv, d as int) && pair.1 == spec_hi(
                    dv,
                    lv,
                    d as int,
                ));
                if lv is Some {
                    let ls = lv->Some_0;
                    if ls[d as int] is Some {
                        assert(-MAX_FEATURE <= ls[d as int]->Some_0.0 <= MAX_FEATURE);
                        assert(-MAX_FEATURE <= ls[d as int]->Some_0.1 <= MAX_FEATURE);
                    }
                }
                assert(-MAX_FEATURE <= pair.0 <= MAX_FEATURE);
                assert(-MAX_FEATURE <= pair.1 <= MAX_FEATURE);
            }
            los.push(pair.0);
            his.push(pair.1);
            proof {
                assert(los@[d as int] == pair.0);
                assert(his@[d as int] == pair.1);
            }
            d = d + 1;
        }

        // Bin edges: n + 1 equally spaced rational points per dimension.
        let mut borders: Vec<Vec<BinEdge>> = Vec::new();
        let mut d: usize = 0;
        while d < dcount
            invariant
                d <= dcount,
                borders@.len() == d,
                forall|k: int|
                    0 <= k < d ==> (#[trigger] borders@[k])@ == spec_borders_dim(
                        spec_lo(dv, lv, k),
                        spec_hi(dv, lv, k),
                        n as int,
                    ),
            decreases dcount - d,
        {
            let lo = los[d];
            let hi = his[d];
            let mut row: Vec<BinEdge> = Vec::new();
            let mut i: usize = 0;
            while i <= n
                invariant
                    i <= n + 1,
                    row@.len() == i,
                    lo == spec_lo(dv, lv, d as int),
                    hi == spec_hi(dv, lv, d as int),
                    forall|j: int|
                        0 <= j < i ==> (#[trigger] row@[j]) == spec_border(
                            lo as int,
                            hi as int,
                            n as int,
                            j,
                        ),
                decreases n + 1 - i,
            {
                proof {
                    assert(-0x10_0000_0000_0000i64 <= lo * nn <= 0x10_0000_0000_0000i64)
                        by (nonlinear_arith)
                        requires
                            -MAX_FEATURE <= lo <= MAX_FEATURE,
                            1 <= nn <= MAX_BINS,
                    ;
                    assert(-0x40_0000_0000_0000i64 <= (hi - lo) * (i as i64)
                        <= 0x40_0000_0000_0000i64) by (nonlinear_arith)
                        requires
                            -MAX_FEATURE <= lo <= MAX_FEATURE,
                            -MAX_FEATURE <= hi <= MAX_FEATURE,
                            0 <= i <= MAX_BINS,
                    ;
                }
                let num = lo * nn + (hi - lo) * (i as i64);
                row.push(BinEdge { num, den: nn });
                i = i + 1;
            }
            proof {
                assert(row@ =~= spec_borders_dim(lo as int, hi as int, n as int));
            }
            borders.push(row);
            d = d + 1;
        }

        // The flat basket array covering the whole grid.
        let ghost cap = pow(n as int, dcount as nat);
        let mut total: usize = 1;
        let mut k: usize = 0;
        proof {
            vstd::arithmetic::power::lemma_pow0(n as int);
        }
        while k < dcount
            invariant
                k <= dcount,
                total == pow(n as int, k as nat),
            decreases dcount - k,
        {
            proof {
                vstd::arithmetic::power::lemma_pow1(n as int);
                vstd::arithmetic::power::lemma_pow_adds(n as int, k as nat, 1nat);
                assert(pow(n as int, (k + 1) as nat) == total * (n as int));
                vstd::arithmetic::power::lemma_pow_increases(
                    n as nat,
                    (k + 1) as nat,
                    dcount as nat,
                );
            }
            total = total * n;
            k = k + 1;
        }
        let mut baskets: Vec<u64> = Vec::new();
        while baskets.len() < total
            invariant
                baskets@.len() <= total,
                forall|j: int| 0 <= j < baskets@.len() ==> (#[trigger] baskets@[j]) == 0,
            decreases total - baskets@.len(),
        {
            baskets.push(0);
        }
        proof {
            vstd::arithmetic::power::lemma_pow_positive(n as int, dcount as nat);
            assert forall|j: int| 0 <= j < total implies (#[trigger] baskets@[j]) as int
                == spec_baskets(dv, lv, n as int, 0)[j] by {}
        }

        // Bin every sample.
        let mut i: usize = 0;
        while i < scount
            invariant
                i <= scount,
                baskets@.len() == total,
                total == cap,
                forall|j: int|
                    0 <= j < total ==> (#[trigger] baskets@[j]) as int == spec_baskets(
                        dv,
                        lv,
                        n as int,
                        i as int,
                    )[j],
            decreases scount - i,
        {
            proof {
                lemma_spec_baskets_bounds(dv, lv, n as int, i as int);
                lemma_coords_nonneg(dv, lv, n as int, i as int);
            }
            let ghost coords = spec_coords(dv, lv, n as int, i as int);
            let mut idx: usize = 0;
            let mut dropped = false;
            let mut d: usize = 0;
            proof {
                assert(coords.take(0) =~= Seq::<int>::empty());
            }
            while d < dcount
                invariant
                    d <= dcount,
                    !dropped ==> idx == flat_index(coords.take(d as int), n as int) && idx
                        < cap,
                    dropped ==> flat_index(coords, n as int) >= cap,
                decreases dcount - d,
            {
                proof {
                    assert(dv[d as int] =~= data@[d as int]@);
                    assert(dv[d as int].len() == dv[0].len());
                }
                let v = data[d][i];
                let lo = los[d];
                let hi = his[d];
                proof {
                    assert(coords[d as int] == bin_coord(
                        v as int,
                        lo as int,
                        hi as int,
                        n as int,
                        cap,
                    ));
                    assert(coords.take(d + 1).drop_last() =~= coords.take(d as int));
                    assert(coords.take(d + 1).last() == coords[d as int]);
                }
                proof {
                    assert(v == dv[d as int][i as int]);
                    assert(-MAX_FEATURE <= v <= MAX_FEATURE);
                }
                let mut c: i64 = 0;
                let mut off_grid = false;
                if v < lo {
                    c = 0;
                } else if hi <= lo {
                    if v == lo {
                        c = 0;
                    } else {
                        off_grid = true;
                    }
                } else if v == hi {
                    c = nn - 1;
                } else {
                    let diff: u64 = (v - lo) as u64;
                    let hdiff: u64 = (hi - lo) as u64;
                    proof {
                        assert(diff == v - lo);
                        assert(hdiff == hi - lo);
                        assert((diff as int) * (n as int) <= 0x20_0000_0000_0000)
                            by (nonlinear_arith)
                            requires
                                0 <= diff as int <= 0x1_0000_0000,
                                1 <= n as int,
                                (n as int) <= (MAX_BINS as int),
                        ;
                    }
                    let prod: u64 = diff * (n as u64);
                    let c64: u64 = prod / hdiff;
                    proof {
                        assert(prod == (v - lo) * (n as int));
                        assert(c64 == (v - lo) * (n as int) / ((hi - lo) as int));
                        vstd::arithmetic::div_mod::lemma_div_is_ordered(
                            (v - lo) * (n as int),
                            0x20_0000_0000_0000,
                            (hi - lo) as int,
                        );
                        vstd::arithmetic::div_mod::lemma_div_nonincreasing(
                            0x20_0000_0000_0000,
                            (hi - lo) as int,
                        );
                    }
                    c = c64 as i64;
                }
                proof {
                    if !off_grid {
                        assert(0 <= c <= 0x20_0000_0000_0000);
                    }
                }
                if off_grid {
                    proof {
                        assert(coords[d as int] == cap);
                        let partial = flat_index(coords.take(d as int), n as int);
                        if !dropped {
                            assert(flat_index(coords.take(d + 1), n as int) == partial * (
                            n as int) + cap);
                            assert(partial * (n as int) >= 0) by (nonlinear_arith)
                                requires
                                    partial >= 0,
                                    n as int >= 1,
                            ;
                            lemma_flat_prefix(coords, n as int, d + 1);
                        }
                    }
                    dropped = true;
                } else if !dropped {
                    proof {
                        assert(c as int == coords[d as int]);
                        assert((idx as int) * (n as int) + (c as int)
                            < 0x1_0000_0000_0000_0000_0000_0000) by (nonlinear_arith)
                            requires
                                0 <= (idx as int) < 0x1_0000_0000_0000_0000,
                                1 <= (n as int),
                                (n as int) <= (MAX_BINS as int),
                                0 <= (c as int) <= 0x20_0000_0000_0000,
                        ;
                    }
                    let t: u128 = (idx as u128) * (n as u128) + (c as u128);
                    proof {
                        assert(t == flat_index(coords.take(d + 1), n as int));
                    }
                    if t >= total as u128 {
                        proof {
                            lemma_flat_prefix(coords, n as int, d + 1);
                        }
                        dropped = true;
                    } else {
                        idx = t as usize;
                    }
                }
                d = d + 1;
            }
            let ghost si = sample_index(dv, lv, n as int, i as int);
            proof {
                assert(coords.take(dcount as int) =~= coords);
                if !dropped {
                    assert(idx == si && si < cap);
                } else {
                    assert(si >= cap);
                }
                assert(spec_baskets(dv, lv, n as int, i + 1) == if 0 <= si < cap {
                    spec_baskets(dv, lv, n as int, i as int).update(
                        si,
                        spec_baskets(dv, lv, n as int, i as int)[si] + 1,
                    )
                } else {
                    spec_baskets(dv, lv, n as int, i as int)
                });
            }
            if !dropped {
                let cur = baskets[idx];
                baskets.set(idx, cur + 1);
            }
            i = i + 1;
        }
        proof {
            assert(scount == dv[0].len());
            assert forall|j: int| 0 <= j < total implies (#[trigger] baskets@[j]) as int
                == spec_baskets(dv, lv, n as int, dv[0].len() as int)[j] by {}
        }
        NDHistogram { baskets, borders }
    }
}

/// Every bin coordinate is at least 0: saturation pins values below the
/// range to bin 0, and off-grid markers equal the (positive) grid size.
proof fn lemma_coords_nonneg(
    data: Seq<Seq<i64>>,
    limits: Option<Seq<Option<(i64, i64)>>>,
    n: int,
    i: int,
)
    requires
        n >= 1,
    ensures
        forall|d: int|
            0 <= d < data.len() ==> 0 <= #[trigger] spec_coords(data, limits, n, i)[d],
{
    vstd::arithmetic::power::lemma_pow_positive(n, data.len());
    assert forall|d: int| 0 <= d < data.len() implies 0 <= #[trigger] spec_coords(
        data,
        limits,
        n,
        i,
    )[d] by {
        let v = data[d][i] as int;
        let lo = spec_lo(data, limits, d);
        let hi = spec_hi(data, limits, d);
        if !(v < lo) && !(hi <= lo) && v != hi {
            assert((v - lo) * n >= 0) by (nonlinear_arith)
                requires
                    v >= lo,
                    n >= 1,
            ;
            vstd::arithmetic::div_mod::lemma_div_pos_is_pos((v - lo) * n, hi - lo);
        }
    }
}

/// A prefix of the mixed-radix flattening never exceeds the full index,
/// and the index is never negative.
proof fn lemma_flat_prefix(coords: Seq<int>, n: int, a: int)
    requires
        n >= 1,
        0 <= a <= coords.len(),
        forall|j: int| 0 <= j < coords.len() ==> 0 <= #[trigger] coords[j],
    ensures
        0 <= flat_index(coords.take(a), n) <= flat_index(coords, n),
    decreases coords.len() - a,
{
    lemma_flat_nonneg(coords.take(a), n);
    if a == coords.len() {
        assert(coords.take(a) =~= coords);
    } else {
        assert(coords.take(a + 1).drop_last() =~= coords.take(a));
        assert(coords.take(a + 1).last() == coords[a]);
        let p = flat_index(coords.take(a), n);
        assert(flat_index(coords.take(a + 1), n) == p * n + coords[a]);
        assert(p * n >= p) by (nonlinear_arith)
            requires
                p >= 0,
                n >= 1,
        ;
        lemma_flat_prefix(coords, n, a + 1);
    }
}

/// The mixed-radix flattening of non-negative coordinates is
/// non-negative.
proof fn lemma_flat_nonneg(coords: Seq<int>, n: int)
    requires
        n >= 1,
        forall|j: int| 0 <= j < coords.len() ==> 0 <= #[trigger] coords[j],
    ensures
        flat_index(coords, n) >= 0,
    decreases coords.len(),
{
    if coords.len() > 0 {
        assert forall|j: int|
            0 <= j < coords.drop_last().len() implies 0 <= #[trigger] coords.drop_last()[j] by {
            assert(coords.drop_last()[j] == coords[j]);
        }
        lemma_flat_nonneg(coords.drop_last(), n);
        let p = flat_index(coords.drop_last(), n);
        assert(p * n >= 0) by (nonlinear_arith)
            requires
                p >= 0,
                n >= 1,
        ;
    }
}

/// Updating one entry of a sequence moves its sum by the difference at
/// that entry.
proof fn lemma_seq_sum_update(s: Seq<int>, i: int, v: int)
    requires
        0 <= i < s.len(),
    ensures
        seq_sum(s.update(i, v)) == seq_sum(s) - s[i] + v,
    decreases s.len(),
{
    let t = s.update(i, v);
    if i == s.len() - 1 {
        assert(t.drop_last() =~= s.drop_last());
        assert(t.last() == v);
    } else {
        assert(t.drop_last() =~= s.drop_last().update(i, v));
        assert(t.last() == s.last());
        lemma_seq_sum_update(s.drop_last(), i, v);
    }
}

/// Basket counts sum to at most the number of samples binned, with
/// equality exactly when no sample was dropped for leaving the grid.
pub proof fn lemma_basket_sum(
    data: Seq<Seq<i64>>,
    limits: Option<Seq<Option<(i64, i64)>>>,
    n: int,
    upto: int,
)
    requires
        n >= 1,
        upto >= 0,
    ensures
        seq_sum(spec_baskets(data, limits, n, upto)) <= upto,
        (forall|i: int|
            0 <= i < upto ==> 0 <= #[trigger] sample_index(data, limits, n, i) < pow(
                n,
                data.len(),
            )) ==> seq_sum(spec_baskets(data, limits, n, upto)) == upto,
    decreases upto,
{
    lemma_spec_baskets_bounds(data, limits, n, upto);
    if upto == 0 {
        lemma_seq_sum_zero(spec_baskets(data, limits, n, 0));
    } else {
        lemma_basket_sum(data, limits, n, upto - 1);
        lemma_spec_baskets_bounds(data, limits, n, upto - 1);
        let prev = spec_baskets(data, limits, n, upto - 1);
        let idx = sample_index(data, limits, n, upto - 1);
        if 0 <= idx < prev.len() {
            lemma_seq_sum_update(prev, idx, prev[idx] + 1);
        }
    }
}

/// A sequence of zeros sums to zero.
proof fn lemma_seq_sum_zero(s: Seq<int>)
    requires
        forall|k: int| 0 <= k < s.len() ==> s[k] == 0,
    ensures
        seq_sum(s) == 0,
    decreases s.len(),
{
    if s.len() > 0 {
        lemma_seq_sum_zero(s.drop_last());
    }
}

/// Building a histogram twice from identical inputs and bin count gives
/// identical baskets and identical borders: the constructor's contract
/// pins both down completely.
pub proof fn lemma_histogram_deterministic(
    h1: NDHistogram,
    h2: NDHistogram,
    data: Seq<Seq<i64>>,
    limits: Option<Seq<Option<(i64, i64)>>>,
    n: int,
)
    requires
        is_histogram_of(h1, data, limits, n),
        is_histogram_of(h2, data, limits, n),
    ensures
        h1.baskets@ == h2.baskets@,
        h1.borders@.len() == h2.borders@.len(),
        forall|d: int| 0 <= d < h1.borders@.len() ==> (#[trigger] h1.borders@[d])@ == h2.borders@[d]@,
{
    if data.len() == 0 || data[0].len() == 0 {
        assert(h1.baskets@ =~= h2.baskets@);
    } else {
        assert(h1.baskets@ =~= h2.baskets@) by {
            assert forall|k: int| 0 <= k < h1.baskets@.len() implies h1.baskets@[k]
                == h2.baskets@[k] by {
                assert(h1.baskets@[k] as int == spec_baskets(data, limits, n, data[0].len() as int)[k]);
                assert(h2.baskets@[k] as int == spec_baskets(data, limits, n, data[0].len() as int)[k]);
            }
        }
    }
}

/// The grid of a non-empty histogram has exactly `n^dim` baskets.
pub proof fn lemma_grid_size(h: NDHistogram)
    requires
        h.wf(),
        h.spec_dim() > 0,
    ensures
        h.baskets@.len() == pow(h.spec_n(), h.spec_dim() as nat),
{
}

/// The basket-count sequence always covers the full grid, and no basket
/// can exceed the number of samples binned so far.
pub proof fn lemma_spec_baskets_bounds(
    data: Seq<Seq<i64>>,
    limits: Option<Seq<Option<(i64, i64)>>>,
    n: int,
    upto: int,
)
    requires
        n >= 1,
    ensures
        spec_baskets(data, limits, n, upto).len() == pow(n, data.len()),
        forall|k: int|
            0 <= k < spec_baskets(data, limits, n, upto).len() ==> 0 <= #[trigger] spec_baskets(
                data,
                limits,
                n,
                upto,
            )[k] <= if upto >= 0 {
                upto
            } else {
                0
            },
    decreases
            if upto >= 0 {
                upto
            } else {
                0
            },
{
    vstd::arithmetic::power::lemma_pow_positive(n, data.len());
    if upto > 0 {
        lemma_spec_baskets_bounds(data, limits, n, upto - 1);
    }
}

} // verus!

