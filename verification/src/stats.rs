//! Small numeric helpers: extrema of a measurement column and the
//! transposition of row/column data.

use vstd::prelude::*;

verus! {

/// Marker type grouping the statistics helpers of this crate.
pub struct StatsUtils;

/// The smallest element of a non-empty sequence.
pub open spec fn seq_min(s: Seq<i64>) -> i64
    recommends
        s.len() > 0,
    decreases s.len(),
{
    if s.len() <= 1 {
        s[0]
    } else {
        let m = seq_min(s.drop_last());
        if s.last() < m {
            s.last()
        } else {
            m
        }
    }
}

/// The largest element of a non-empty sequence.
pub open spec fn seq_max(s: Seq<i64>) -> i64
    recommends
        s.len() > 0,
    decreases s.len(),
{
    if s.len() <= 1 {
        s[0]
    } else {
        let m = seq_max(s.drop_last());
        if s.last() > m {
            s.last()
        } else {
            m
        }
    }
}

/// `seq_min` is an element of the sequence and bounds every element from
/// below.
pub proof fn lemma_seq_min(s: Seq<i64>)
    requires
        s.len() > 0,
    ensures
        s.contains(seq_min(s)),
        forall|i: int| 0 <= i < s.len() ==> seq_min(s) <= s[i],
    decreases s.len(),
{
    if s.len() > 1 {
        lemma_seq_min(s.drop_last());
        assert forall|i: int| 0 <= i < s.len() implies seq_min(s) <= s[i] by {
            if i < s.len() - 1 {
                assert(s.drop_last()[i] == s[i]);
            }
        }
        if s.last() < seq_min(s.drop_last()) {
            assert(s.contains(s.last())) by {
                assert(s[s.len() - 1] == s.last());
            }
        } else {
            let j = choose|j: int|
                0 <= j < s.drop_last().len() && s.drop_last()[j] == seq_min(s.drop_last());
            assert(s[j] == seq_min(s));
        }
    } else {
        assert(s[0] == seq_min(s));
    }
}

/// `seq_max` is an element of the sequence and bounds every element from
/// above.
pub proof fn lemma_seq_max(s: Seq<i64>)
    requires
        s.len() > 0,
    ensures
        s.contains(seq_max(s)),
        forall|i: int| 0 <= i < s.len() ==> s[i] <= seq_max(s),
    decreases s.len(),
{
    if s.len() > 1 {
        lemma_seq_max(s.drop_last());
        assert forall|i: int| 0 <= i < s.len() implies s[i] <= seq_max(s) by {
            if i < s.len() - 1 {
                assert(s.drop_last()[i] == s[i]);
            }
        }
        if s.last() > seq_max(s.drop_last()) {
            assert(s.contains(s.last())) by {
                assert(s[s.len() - 1] == s.last());
            }
        } else {
            let j = choose|j: int|
                0 <= j < s.drop_last().len() && s.drop_last()[j] == seq_max(s.drop_last());
            assert(s[j] == seq_max(s));
        }
    } else {
        assert(s[0] == seq_max(s));
    }
}

/// The observed `(min, max)` of a measurement column; an empty column
/// yields the neutral pair `(i64::MAX, i64::MIN)`.
pub trait Extrema<T>: Sized {
    /// What `extrema` returns.
    spec fn extrema_spec(&self) -> (T, T);

    fn extrema(&self) -> (r: (T, T))
        ensures
            r == self.extrema_spec(),
    ;
}

impl Extrema<i64> for Vec<i64> {
    open spec fn extrema_spec(&self) -> (i64, i64) {
        if self@.len() == 0 {
            (i64::MAX, i64::MIN)
        } else {
            (seq_min(self@), seq_max(self@))
        }
    }

    fn extrema(&self) -> (r: (i64, i64)) {
        let mut min = i64::MAX;
        let mut max = i64::MIN;
        let mut i: usize = 0;
        while i < self.len()
            invariant
                i <= self@.len(),
                i == 0 ==> min == i64::MAX && max == i64::MIN,
                i > 0 ==> min == seq_min(self@.subrange(0, i as int)) && max == seq_max(
                    self@.subrange(0, i as int),
                ),
            decreases self@.len() - i,
        {
            let x = self[i];
            proof {
                let pre = self@.subrange(0, i as int);
                let post = self@.subrange(0, i + 1);
                assert(post.drop_last() =~= pre);
                assert(post.last() == self@[i as int]);
            }
            if x < min {
                min = x;
            }
            if x > max {
                max = x;
            }
            proof {
                if i == 0 {
                    assert(self@.subrange(0, 1).len() == 1);
                }
            }
            i = i + 1;
        }
        proof {
            assert(self@.subrange(0, self@.len() as int) =~= self@);
        }
        (min, max)
    }
}

/// Swapping rows and columns of rectangular row-major data.
pub trait Transpose: Sized {
    /// The shape `transpose` accepts: all rows equally long.
    spec fn transpose_req(&self) -> bool;

    /// How the result relates to the input.
    spec fn transpose_rel(&self, r: &Self) -> bool;

    fn transpose(self) -> (r: Self)
        requires
            self.transpose_req(),
        ensures
            self.transpose_rel(&r),
    ;
}

impl<T: Copy> Transpose for Vec<Vec<T>> {
    open spec fn transpose_req(&self) -> bool {
        forall|i: int| 0 <= i < self@.len() ==> #[trigger] self@[i]@.len() == self@[0]@.len()
    }

    open spec fn transpose_rel(&self, r: &Self) -> bool {
        if self@.len() == 0 {
            r@.len() == 0
        } else if self@[0]@.len() == 0 {
            r@.len() == 1 && r@[0]@.len() == 0
        } else {
            &&& r@.len() == self@[0]@.len()
            &&& forall|x: int| 0 <= x < r@.len() ==> #[trigger] r@[x]@.len() == self@.len()
            &&& forall|x: int, y: int|
                0 <= x < r@.len() && 0 <= y < self@.len() ==> #[trigger] r@[x]@[y] == self@[y]@[x]
        }
    }

    fn transpose(self) -> (r: Self) {
        if self.len() == 0 {
            return Vec::new();
        }
        let width = self[0].len();
        if width == 0 {
            let mut r: Vec<Vec<T>> = Vec::new();
            r.push(Vec::new());
            return r;
        }
        let mut r: Vec<Vec<T>> = Vec::new();
        let mut x: usize = 0;
        while x < width
            invariant
                self@.len() > 0,
                width == self@[0]@.len(),
                forall|i: int| 0 <= i < self@.len() ==> #[trigger] self@[i]@.len() == width,
                x <= width,
                r@.len() == x,
                forall|u: int| 0 <= u < x ==> #[trigger] r@[u]@.len() == self@.len(),
                forall|u: int, v: int|
                    0 <= u < x && 0 <= v < self@.len() ==> #[trigger] r@[u]@[v] == self@[v]@[u],
            decreases width - x,
        {
            let mut row: Vec<T> = Vec::new();
            let mut y: usize = 0;
            while y < self.len()
                invariant
                    x < width,
                    forall|i: int| 0 <= i < self@.len() ==> #[trigger] self@[i]@.len() == width,
                    y <= self@.len(),
                    row@.len() == y,
                    forall|v: int| 0 <= v < y ==> #[trigger] row@[v] == self@[v]@[x as int],
                decreases self@.len() - y,
            {
                row.push(self[y][x]);
                y = y + 1;
            }
            r.push(row);
            x = x + 1;
        }
        r
    }
}

} // verus!
