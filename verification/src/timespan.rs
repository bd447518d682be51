//! Closed timestamp intervals and calendar-day arithmetic.
//!
//! A [`Timespan`] is a closed interval `[begin, end]` over epoch-millisecond
//! timestamps. Calendar days are numbered from the epoch: day `d` covers
//! `[d * MS_PER_DAY, d * MS_PER_DAY + 86_399_000]`, i.e. `00:00:00` up to
//! `23:59:59` at second granularity. The missing final 999 ms per day are a
//! deliberate, documented simplification.

use crate::CoreError;
use crate::MS_PER_DAY;
use vstd::prelude::*;

verus! {

/// Offset of `23:59:59` from midnight, in milliseconds.
pub const DAY_END_OFFSET: i64 = 86_399_000;

/// Largest day number accepted by the calendar arithmetic, so that
/// `day * MS_PER_DAY` stays well inside the `i64` range.
pub const MAX_DAY: i64 = 100_000_000_000;

/// Smallest timestamp accepted by the calendar arithmetic.
pub const MIN_CALENDAR_TS: i64 = -8_640_000_000_000_000;

/// Largest timestamp accepted by the calendar arithmetic.
pub const MAX_CALENDAR_TS: i64 = 8_640_000_000_000_000;

/// The calendar day a timestamp falls in (floor division by the day length).
pub open spec fn day_of(t: int) -> int {
    t / (MS_PER_DAY as int)
}

/// Clamp `v` into the closed interval `[lo, hi]`.
pub open spec fn clamp_ts(v: int, lo: int, hi: int) -> int {
    if v < lo {
        lo
    } else if v > hi {
        hi
    } else {
        v
    }
}

/// A value paired with the epoch-millisecond instant it was recorded
/// at.
#[derive(Debug, Clone, Copy, PartialEq, Eq, Structural)]
pub struct TimedData<T> {
    pub time: i64,
    pub data: T,
}

/// Closed interval `[begin, end]` of epoch-millisecond timestamps.
///
/// The constructor enforces `begin <= end`; every operation preserves it.
#[derive(Debug, Clone, Copy, PartialEq, Eq, Structural)]
pub struct Timespan {
    pub begin: i64,
    pub end: i64,
}

/// The full calendar-day span of day `d`.
pub open spec fn spec_day_span(d: int) -> Timespan {
    Timespan { begin: (d * MS_PER_DAY) as i64, end: (d * MS_PER_DAY + DAY_END_OFFSET) as i64 }
}

/// The day markers and day spans covering `s`, first and last day included
/// even when `s` covers them only partly.
pub open spec fn spec_days(s: Timespan) -> Seq<(i64, Timespan)> {
    Seq::new(
        (day_of(s.end as int) - day_of(s.begin as int) + 1) as nat,
        |i: int| ((day_of(s.begin as int) + i) as i64, spec_day_span(day_of(s.begin as int) + i)),
    )
}

impl Timespan {
    /// Ordering invariant of a span.
    pub open spec fn wf(self) -> bool {
        self.begin <= self.end
    }

    /// Builds the closed interval `[begin, end]`; an unordered pair is
    /// rejected with `InvalidRange`.
    pub fn new(begin: i64, end: i64) -> (r: Result<Timespan, CoreError>)
        ensures
            begin <= end ==> r == Ok::<Timespan, CoreError>((Timespan { begin, end })),
            begin > end ==> r == Err::<Timespan, CoreError>(CoreError::InvalidRange),
            r is Ok ==> r->Ok_0.wf(),
    {
        if begin <= end {
            Ok(Timespan { begin, end })
        } else {
            Err(CoreError::InvalidRange)
        }
    }

    /// Membership test: both endpoints are inside.
    pub fn is_inside(&self, t: i64) -> (r: bool)
        ensures
            r == (self.begin <= t <= self.end),
    {
        self.begin <= t && t <= self.end
    }

    /// Truncates both endpoints into `[min, max]`.
    pub fn clamp(&self, min: i64, max: i64) -> (r: Timespan)
        requires
            min <= max,
        ensures
            r.begin == clamp_ts(self.begin as int, min as int, max as int),
            r.end == clamp_ts(self.end as int, min as int, max as int),
            self.wf() ==> r.wf(),
    {
        Timespan { begin: clamp_i64(self.begin, min, max), end: clamp_i64(self.end, min, max) }
    }

    /// The span of calendar day `date`: `[00:00:00, 23:59:59]` at second
    /// granularity.
    pub fn to_day(date: i64) -> (r: Timespan)
        requires
            -MAX_DAY <= date <= MAX_DAY,
        ensures
            r == spec_day_span(date as int),
            r.wf(),
            day_of(r.begin as int) == date,
            day_of(r.end as int) == date,
    {
        proof {
            assert(-MAX_DAY * MS_PER_DAY <= date * MS_PER_DAY <= MAX_DAY * MS_PER_DAY)
                by (nonlinear_arith)
                requires
                    -MAX_DAY <= date <= MAX_DAY,
            ;
        }
        let begin = date * MS_PER_DAY;
        proof {
            vstd::arithmetic::div_mod::lemma_fundamental_div_mod_converse(
                date * MS_PER_DAY,
                MS_PER_DAY as int,
                date as int,
                0,
            );
            vstd::arithmetic::div_mod::lemma_fundamental_div_mod_converse(
                date * MS_PER_DAY + DAY_END_OFFSET,
                MS_PER_DAY as int,
                date as int,
                DAY_END_OFFSET as int,
            );
        }
        Timespan { begin, end: begin + DAY_END_OFFSET }
    }

    /// Every calendar day whose union covers the span, as `(day, day span)`
    /// pairs in ascending day order; partial first and last days included.
    pub fn days(&self) -> (r: Vec<(i64, Timespan)>)
        requires
            self.wf(),
            MIN_CALENDAR_TS <= self.begin,
            self.end <= MAX_CALENDAR_TS,
        ensures
            r@ == spec_days(*self),
            r@.len() == day_of(self.end as int) - day_of(self.begin as int) + 1,
    {
        let first = day_floor(self.begin);
        let last = day_floor(self.end);
        proof {
            vstd::arithmetic::div_mod::lemma_div_is_ordered(
                self.begin as int,
                self.end as int,
                MS_PER_DAY as int,
            );
        }
        let mut r: Vec<(i64, Timespan)> = Vec::new();
        let mut d = first;
        while d <= last
            invariant
                first <= d <= last + 1,
                last < MAX_DAY,
                -MAX_DAY < first,
                r@.len() == d - first,
                forall|i: int|
                    0 <= i < r@.len() ==> r@[i] == ((first + i) as i64, spec_day_span(first + i)),
            decreases last - d + 1,
        {
            let span = Timespan::to_day(d);
            r.push((d, span));
            d = d + 1;
        }
        proof {
            assert(r@ =~= spec_days(*self));
        }
        r
    }
}

/// Clamp a timestamp into `[lo, hi]`.
pub fn clamp_i64(v: i64, lo: i64, hi: i64) -> (r: i64)
    requires
        lo <= hi,
    ensures
        r == clamp_ts(v as int, lo as int, hi as int),
{
    if v < lo {
        lo
    } else if v > hi {
        hi
    } else {
        v
    }
}

/// The calendar day a timestamp falls in; rounds toward minus infinity.
pub fn day_floor(t: i64) -> (r: i64)
    requires
        MIN_CALENDAR_TS <= t <= MAX_CALENDAR_TS,
    ensures
        r == day_of(t as int),
        -MAX_DAY < r < MAX_DAY,
{
    if t >= 0 {
        let q = t / MS_PER_DAY;
        proof {
            vstd::arithmetic::div_mod::lemma_div_pos_is_pos(t as int, MS_PER_DAY as int);
            vstd::arithmetic::div_mod::lemma_div_is_ordered(
                t as int,
                MAX_CALENDAR_TS as int,
                MS_PER_DAY as int,
            );
        }
        q
    } else {
        let n = -t;
        let q = (n + MS_PER_DAY - 1) / MS_PER_DAY;
        proof {
            lemma_neg_ceil_div(n as int, MS_PER_DAY as int);
            vstd::arithmetic::div_mod::lemma_div_pos_is_pos(
                n + MS_PER_DAY - 1,
                MS_PER_DAY as int,
            );
            vstd::arithmetic::div_mod::lemma_div_is_ordered(
                n + MS_PER_DAY - 1,
                MAX_CALENDAR_TS + MS_PER_DAY - 1,
                MS_PER_DAY as int,
            );
        }
        -q
    }
}

/// Floor division of a negative numerator expressed through the ceiling
/// division of its negation: `-((n + d - 1) / d) == (-n) / d` for `n >= 0`.
proof fn lemma_neg_ceil_div(n: int, d: int)
    requires
        n >= 0,
        d > 0,
    ensures
        -((n + d - 1) / d) == (-n) / d,
{
    let q = n / d;
    let r = n % d;
    vstd::arithmetic::div_mod::lemma_fundamental_div_mod(n, d);
    if r == 0 {
        assert(n + d - 1 == q * d + (d - 1));
        vstd::arithmetic::div_mod::lemma_fundamental_div_mod_converse(n + d - 1, d, q, d - 1);
        assert(-n == (-q) * d + 0) by (nonlinear_arith)
            requires
                n == d * q + r,
                r == 0,
        ;
        vstd::arithmetic::div_mod::lemma_fundamental_div_mod_converse(-n, d, -q, 0);
    } else {
        assert(n + d - 1 == (q + 1) * d + (r - 1)) by (nonlinear_arith)
            requires
                n == d * q + r,
        ;
        vstd::arithmetic::div_mod::lemma_fundamental_div_mod_converse(n + d - 1, d, q + 1, r - 1);
        assert(-n == (-(q + 1)) * d + (d - r)) by (nonlinear_arith)
            requires
                n == d * q + r,
        ;
        vstd::arithmetic::div_mod::lemma_fundamental_div_mod_converse(-n, d, -(q + 1), d - r);
    }
}

/// A span lying inside one calendar day yields exactly one day entry.
pub proof fn lemma_days_single_day(s: Timespan)
    requires
        s.wf(),
        day_of(s.begin as int) == day_of(s.end as int),
    ensures
        spec_days(s).len() == 1,
{
}

/// A span crossing exactly one midnight yields exactly two day entries.
pub proof fn lemma_days_crossing_midnight(s: Timespan)
    requires
        s.wf(),
        day_of(s.end as int) == day_of(s.begin as int) + 1,
    ensures
        spec_days(s).len() == 2,
{
}

} // verus!
