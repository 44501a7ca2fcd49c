//! Summary statistics of a series of values: range, mean, variance and standard deviation.
use vstd::prelude::*;

use super::range::{ranges_max, ranges_min, seq_max, seq_min, trunc_div, RangeIncl};

verus! {

/// The sum of the values.
pub open spec fn seq_sum(s: Seq<i32>) -> int
    decreases s.len(),
{
    if s.len() == 0 {
        0
    } else {
        seq_sum(s.drop_last()) + s.last()
    }
}

/// The sum of the squares of the values.
pub open spec fn seq_sum_sq(s: Seq<i32>) -> int
    decreases s.len(),
{
    if s.len() == 0 {
        0
    } else {
        seq_sum_sq(s.drop_last()) + s.last() * s.last()
    }
}

/// The magnitude of an integer.
pub open spec fn abs(a: int) -> int {
    if a >= 0 {
        a
    } else {
        -a
    }
}

/// A division of the sum by the count that never grows the magnitude of the exact quotient:
/// what rounding toward zero or toward negative infinity both give.
pub open spec fn bounded_division<D: Fn(i128, usize) -> i128>(div: D) -> bool {
    &&& forall|a: i128, c: usize| #[trigger] call_requires(div, (a, c))
    &&& forall|a: i128, c: usize, q: i128|
        c >= 1 && #[trigger] call_ensures(div, (a, c), q) ==> abs(q as int) <= abs(a as int) / (
        c as int) + 1
}

/// Whether, on the series `data`, whatever the divisions give keeps `mean * mean` and the
/// variance `mean_sq - mean * mean` within `i128`, as computing them needs.
pub open spec fn stats_fit<D: Fn(i128, usize) -> i128, Q: Fn(i128, usize) -> i128>(
    data: Seq<i32>,
    div: D,
    div_sq: Q,
) -> bool {
    data.len() > 0 ==> forall|q: i128, q2: i128|
        #[trigger] call_ensures(div, (seq_sum(data) as i128, data.len() as usize), q)
            && #[trigger] call_ensures(div_sq, (seq_sum_sq(data) as i128, data.len() as usize), q2)
            ==> i128::MIN <= q * q <= i128::MAX && i128::MIN <= q2 - q * q <= i128::MAX
}

/// `r` is the integer square root of `v`: the largest `r` with `r * r <= v` (0 when `v < 0`).
pub open spec fn is_isqrt(v: int, r: int) -> bool {
    if v < 0 {
        r == 0
    } else {
        r >= 0 && r * r <= v < (r + 1) * (r + 1)
    }
}

/// The integer square root: the largest `r` with `r * r <= v`, or 0 for negative `v`.
pub fn isqrt(v: i128) -> (r: i128)
    ensures
        is_isqrt(v as int, r as int),
{
    if v < 0 {
        return 0;
    }
    let x: u128 = v as u128;
    let mut lo: u128 = 0;
    let mut hi: u128 = 0x1_0000_0000_0000_0000;
    assert(hi * hi > x) by (nonlinear_arith)
        requires
            hi == 0x1_0000_0000_0000_0000u128,
            x < 0x8000_0000_0000_0000_0000_0000_0000_0000u128,
    ;
    while hi - lo > 1
        invariant
            lo < hi <= 0x1_0000_0000_0000_0000u128,
            lo * lo <= x,
            x < hi * hi,
        decreases hi - lo,
    {
        let mid: u128 = lo + (hi - lo) / 2;
        assert(mid * mid <= 0xffff_ffff_ffff_ffff_ffff_ffff_ffff_ffffu128) by (nonlinear_arith)
            requires
                mid < 0x1_0000_0000_0000_0000u128,
        ;
        if mid * mid <= x {
            lo = mid;
        } else {
            hi = mid;
        }
    }
    lo as i128
}

/// `a / c` rounded toward zero, and 0 when `c` is 0.
pub open spec fn count_div(a: int, c: int) -> int {
    if c == 0 {
        0
    } else {
        trunc_div(a, c)
    }
}

/// Divides a sum by a count, rounding toward zero.
pub fn div_count(a: i128, c: usize) -> (q: i128)
    ensures
        q == count_div(a as int, c as int),
        c >= 1 ==> abs(q as int) == abs(a as int) / (c as int),
{
    if c == 0 {
        return 0;
    }
    let ua: u128 = if a >= 0 { a as u128 } else { (-(a + 1)) as u128 + 1 };
    let q: u128 = ua / (c as u128);
    assert(q <= ua) by (nonlinear_arith)
        requires
            c >= 1,
            q == ua / (c as u128),
    ;
    if a >= 0 {
        q as i128
    } else {
        assert(q <= 0x8000_0000_0000_0000_0000_0000_0000_0000u128);
        if q == 0x8000_0000_0000_0000_0000_0000_0000_0000u128 {
            assert(c == 1) by (nonlinear_arith)
                requires
                    c >= 1,
                    q == ua / (c as u128),
                    ua <= 0x8000_0000_0000_0000_0000_0000_0000_0000u128,
                    q == 0x8000_0000_0000_0000_0000_0000_0000_0000u128,
            ;
            a
        } else {
            -(q as i128)
        }
    }
}

/// The values widened to `i32`.
pub open spec fn widen_u8(s: Seq<u8>) -> Seq<i32> {
    s.map_values(|x: u8| x as i32)
}

/// Range, mean, variance and standard deviation of a series.
#[derive(Debug, Clone, Copy, PartialEq, Eq)]
pub struct ArrayStats<Num, NumDivisible = Num, NumSq = Num> {
    pub range: RangeIncl<Num>,
    pub mean: NumDivisible,
    pub variance: NumSq,
    pub std_dev: NumDivisible,
}

proof fn lemma_sum_bounds(s: Seq<i32>)
    ensures
        -(s.len() * 0x8000_0000) <= seq_sum(s) <= s.len() * 0x7fff_ffff,
        0 <= seq_sum_sq(s) <= s.len() * 0x4000_0000_0000_0000,
    decreases s.len(),
{
    if s.len() > 0 {
        lemma_sum_bounds(s.drop_last());
        let x = s.last();
        assert(0 <= x * x <= 0x4000_0000_0000_0000) by (nonlinear_arith)
            requires
                -0x8000_0000 <= x <= 0x7fff_ffff,
        ;
    }
}

proof fn lemma_quotient_bound(a: int, n: int, m: int)
    requires
        n >= 1,
        m >= 0,
        abs(a) <= n * m,
    ensures
        abs(a) / n <= m,
{
    assert(abs(a) / n <= m) by (nonlinear_arith)
        requires
            n >= 1,
            m >= 0,
            0 <= abs(a) <= n * m,
    ;
}

/// Divisions that round as integer division does keep the statistics of any series within
/// `i128`.
pub proof fn lemma_rounding_divisions_fit<D: Fn(i128, usize) -> i128, Q: Fn(i128, usize) -> i128>(
    data: Seq<i32>,
    div: D,
    div_sq: Q,
)
    requires
        bounded_division(div),
        bounded_division(div_sq),
        data.len() <= usize::MAX,
    ensures
        stats_fit(data, div, div_sq),
{
    if data.len() > 0 {
        lemma_sum_bounds(data);
        let n = data.len() as int;
        assert(n * 0x7fff_ffff <= 0x1_0000_0000_0000_0000 * 0x7fff_ffff) by (nonlinear_arith)
            requires
                n <= 0x1_0000_0000_0000_0000,
        ;
        assert(n * 0x8000_0000 <= 0x1_0000_0000_0000_0000 * 0x8000_0000) by (nonlinear_arith)
            requires
                n <= 0x1_0000_0000_0000_0000,
        ;
        assert(n * 0x4000_0000_0000_0000 <= 0x1_0000_0000_0000_0000 * 0x4000_0000_0000_0000)
            by (nonlinear_arith)
            requires
                n <= 0x1_0000_0000_0000_0000,
        ;
        let a = seq_sum(data) as i128;
        let b = seq_sum_sq(data) as i128;
        let c = data.len() as usize;
        assert(a == seq_sum(data) && b == seq_sum_sq(data) && c == n);
        assert forall|q: i128, q2: i128|
            #[trigger] call_ensures(div, (a, c), q) && #[trigger] call_ensures(div_sq, (b, c), q2)
                implies i128::MIN <= q * q <= i128::MAX && i128::MIN <= q2 - q * q <= i128::MAX by {
            lemma_quotient_bound(a as int, n, 0x8000_0000);
            lemma_quotient_bound(b as int, n, 0x4000_0000_0000_0000);
            assert(abs(q as int) <= 0x8000_0001);
            assert(0 <= q * q <= 0x8000_0001 * 0x8000_0001) by (nonlinear_arith)
                requires
                    abs(q as int) <= 0x8000_0001,
            ;
        }
    }
}

impl ArrayStats<i32, i128, i128> {
    /// The statistics of a non-empty series, `None` for an empty one.
    ///
    /// `mean` is `div(sum, count)`, `variance` is `div_sq(sum of squares, count) - mean * mean`
    /// and `std_dev` is `sqrt(variance)`.
    ///
    /// What the divisions give on the series must keep `mean * mean` and the variance within
    /// `i128` (`stats_fit`); divisions that round as integer division does always do
    /// (`lemma_rounding_divisions_fit`).
    pub fn new<D, Q, R>(data: &[i32], div: D, div_sq: Q, sqrt: R) -> (r: Option<Self>) where
        D: Fn(i128, usize) -> i128,
        Q: Fn(i128, usize) -> i128,
        R: Fn(i128) -> i128,

        requires
            forall|a: i128, c: usize| #[trigger] call_requires(div, (a, c)),
            forall|a: i128, c: usize| #[trigger] call_requires(div_sq, (a, c)),
            forall|v: i128| #[trigger] call_requires(sqrt, (v,)),
            stats_fit(data@, div, div_sq),
        ensures
            data@.len() == 0 <==> r is None,
            r matches Some(s) ==> {
                &&& s.range.min == seq_min(data@)
                &&& s.range.max == seq_max(data@)
                &&& call_ensures(
                    div,
                    (seq_sum(data@) as i128, data@.len() as usize),
                    s.mean,
                )
                &&& exists|q: i128|
                    #[trigger] call_ensures(div_sq, (seq_sum_sq(data@) as i128, data@.len() as usize), q)
                        && s.variance == q - s.mean * s.mean
                &&& call_ensures(sqrt, (s.variance,), s.std_dev)
            },
    {
        if data.len() == 0 {
            return None;
        }
        let first = data[0];
        let first_m = first as i128;
        let mut min = first;
        let mut max = first;
        let mut sum: i128 = first_m;
        assert(0 <= first_m * first_m <= 0x4000_0000_0000_0000) by (nonlinear_arith)
            requires
                -0x8000_0000 <= first_m <= 0x7fff_ffff,
        ;
        let mut sum_sq: i128 = first_m * first_m;
        let mut count: usize = 1;
        assert(data@.take(1).drop_last() =~= Seq::<i32>::empty());
        assert(data@.take(1).last() == first);
        assert(seq_sum(data@.take(1)) == first) by {
            reveal_with_fuel(seq_sum, 2);
        }
        assert(seq_sum_sq(data@.take(1)) == first * first) by {
            reveal_with_fuel(seq_sum_sq, 2);
        }
        while count < data.len()
            invariant
                1 <= count <= data@.len(),
                min == seq_min(data@.take(count as int)),
                max == seq_max(data@.take(count as int)),
                sum == seq_sum(data@.take(count as int)),
                sum_sq == seq_sum_sq(data@.take(count as int)),
            decreases data@.len() - count,
        {
            let value = data[count];
            proof {
                assert(data@.take(count + 1).drop_last() =~= data@.take(count as int));
                lemma_sum_bounds(data@.take(count + 1));
                assert((count + 1) * 0x7fff_ffff <= 0x1_0000_0000_0000_0000 * 0x7fff_ffff)
                    by (nonlinear_arith)
                    requires
                        count + 1 <= 0x1_0000_0000_0000_0000,
                ;
                assert((count + 1) * 0x8000_0000 <= 0x1_0000_0000_0000_0000 * 0x8000_0000)
                    by (nonlinear_arith)
                    requires
                        count + 1 <= 0x1_0000_0000_0000_0000,
                ;
                assert((count + 1) * 0x4000_0000_0000_0000 <= 0x1_0000_0000_0000_0000
                    * 0x4000_0000_0000_0000) by (nonlinear_arith)
                    requires
                        count + 1 <= 0x1_0000_0000_0000_0000,
                ;
            }
            if value < min {
                min = value;
            }
            if value > max {
                max = value;
            }
            let value_m = value as i128;
            assert(0 <= value_m * value_m <= 0x4000_0000_0000_0000) by (nonlinear_arith)
                requires
                    -0x8000_0000 <= value_m <= 0x7fff_ffff,
            ;
            sum = sum + value_m;
            sum_sq = sum_sq + value_m * value_m;
            count = count + 1;
        }
        assert(data@.take(count as int) =~= data@);
        proof {
            lemma_sum_bounds(data@);
        }
        let mean = div(sum, count);
        let mean_sq = div_sq(sum_sq, count);
        proof {
            assert(sum == seq_sum(data@) as i128);
            assert(sum_sq == seq_sum_sq(data@) as i128);
            assert(count == data@.len() as usize);
            assert(call_ensures(div, (seq_sum(data@) as i128, data@.len() as usize), mean));
            assert(call_ensures(div_sq, (seq_sum_sq(data@) as i128, data@.len() as usize), mean_sq));
        }
        let variance = mean_sq - mean * mean;
        let std_dev = sqrt(variance);
        Some(ArrayStats { range: RangeIncl { min, max }, mean, variance, std_dev })
    }

    /// The statistics of a series of bytes, computed on integers: the mean and the mean of the
    /// squares are rounded toward zero and the standard deviation is the integer square root of
    /// the variance.
    pub fn new_u8(data: &[u8]) -> (r: Option<ArrayStats<u8, i128, i128>>)
        ensures
            data@.len() == 0 <==> r is None,
            r matches Some(s) ==> {
                let w = widen_u8(data@);
                let n = data@.len() as int;
                &&& s.range.min == seq_min(w)
                &&& s.range.max == seq_max(w)
                &&& s.mean == trunc_div(seq_sum(w), n)
                &&& s.variance == trunc_div(seq_sum_sq(w), n) - s.mean * s.mean
                &&& is_isqrt(s.variance as int, s.std_dev as int)
            },
    {
        let mut wide: Vec<i32> = Vec::new();
        let mut i: usize = 0;
        while i < data.len()
            invariant
                i <= data@.len(),
                wide@ == widen_u8(data@.take(i as int)),
            decreases data@.len() - i,
        {
            wide.push(data[i] as i32);
            i = i + 1;
            assert(wide@ =~= widen_u8(data@.take(i as int)));
        }
        assert(data@.take(i as int) =~= data@);
        assert(wide@.len() == data@.len());
        assert forall|a: i128, c: usize, q: i128|
            c >= 1 && #[trigger] call_ensures(div_count, (a, c), q) implies abs(q as int) <= abs(
            a as int,
        ) / (c as int) + 1 by {}
        proof {
            lemma_rounding_divisions_fit(wide@, div_count, div_count);
        }
        let stats = Self::new(wide.as_slice(), div_count, div_count, isqrt);
        if stats.is_none() {
            return None;
        }
        let s = stats.unwrap();
        proof {
            assert(forall|k: int| 0 <= k < wide@.len() ==> 0 <= #[trigger] wide@[k] <= 255);
            crate::common::range::lemma_seq_min_max_within(wide@, 0, 255);
            lemma_sum_bounds(wide@);
            let n = wide@.len();
            assert(n * 0x7fff_ffff <= 0x1_0000_0000_0000_0000 * 0x7fff_ffff) by (nonlinear_arith)
                requires
                    n <= 0x1_0000_0000_0000_0000,
            ;
            assert(n * 0x8000_0000 <= 0x1_0000_0000_0000_0000 * 0x8000_0000) by (nonlinear_arith)
                requires
                    n <= 0x1_0000_0000_0000_0000,
            ;
            assert(n * 0x4000_0000_0000_0000 <= 0x1_0000_0000_0000_0000 * 0x4000_0000_0000_0000)
                by (nonlinear_arith)
                requires
                    n <= 0x1_0000_0000_0000_0000,
            ;
        }
        Some(
            ArrayStats {
                range: RangeIncl { min: s.range.min as u8, max: s.range.max as u8 },
                mean: s.mean,
                variance: s.variance,
                std_dev: s.std_dev,
            },
        )
    }

    /// The smallest range covering the ranges of all the given statistics, `None` when there
    /// are none.
    pub fn bounds(stats: &[Self]) -> (r: Option<RangeIncl<i32>>)
        ensures
            stats@.len() == 0 <==> r is None,
            r matches Some(range) ==> {
                let ranges = stats@.map_values(|s: Self| s.range);
                range.min == ranges_min(ranges) && range.max == ranges_max(ranges)
            },
    {
        if stats.len() == 0 {
            return None;
        }
        let ghost ranges = stats@.map_values(|s: Self| s.range);
        let mut range = stats[0].range;
        let mut i: usize = 1;
        assert(ranges.take(1).drop_last() =~= Seq::<RangeIncl<i32>>::empty());
        while i < stats.len()
            invariant
                1 <= i <= stats@.len(),
                ranges == stats@.map_values(|s: Self| s.range),
                range.min == ranges_min(ranges.take(i as int)),
                range.max == ranges_max(ranges.take(i as int)),
            decreases stats@.len() - i,
        {
            assert(ranges.take(i + 1).drop_last() =~= ranges.take(i as int));
            range = range.max(stats[i].range);
            i = i + 1;
        }
        assert(ranges.take(i as int) =~= ranges);
        Some(range)
    }
}

proof fn lemma_sum_between_ends(w: Seq<i32>)
    requires
        w.len() > 0,
    ensures
        w.len() * seq_min(w) <= seq_sum(w) <= w.len() * seq_max(w),
    decreases w.len(),
{
    if w.len() == 1 {
        assert(w.drop_last().len() == 0);
        assert(seq_sum(w.drop_last()) == 0);
        assert(w.last() == w[0]);
        assert(seq_sum(w) == w[0]);
    } else {
        let init = w.drop_last();
        lemma_sum_between_ends(init);
        let n = init.len() as int;
        let x = w.last() as int;
        let lo = seq_min(w);
        let hi = seq_max(w);
        assert(lo <= seq_min(init) && lo <= x);
        assert(hi >= seq_max(init) && hi >= x);
        assert((n + 1) * lo <= seq_sum(init) + x <= (n + 1) * hi) by (nonlinear_arith)
            requires
                n >= 1,
                n * seq_min(init) <= seq_sum(init) <= n * seq_max(init),
                lo <= seq_min(init),
                lo <= x,
                hi >= seq_max(init),
                hi >= x,
        ;
    }
}

proof fn lemma_trunc_div_between(a: int, n: int, lo: int, hi: int)
    requires
        n > 0,
        n * lo <= a <= n * hi,
    ensures
        lo <= trunc_div(a, n) <= hi,
{
    if a >= 0 {
        assert(lo <= a / n <= hi) by (nonlinear_arith)
            requires
                n > 0,
                a >= 0,
                n * lo <= a <= n * hi,
        ;
    } else {
        assert(lo <= -((-a) / n) <= hi) by (nonlinear_arith)
            requires
                n > 0,
                a < 0,
                n * lo <= a <= n * hi,
        ;
    }
}

/// The mean of a non-empty series, rounded toward zero, lies within the series' range.
pub proof fn law_mean_within_range(w: Seq<i32>)
    requires
        w.len() > 0,
    ensures
        seq_min(w) <= trunc_div(seq_sum(w), w.len() as int) <= seq_max(w),
{
    lemma_sum_between_ends(w);
    lemma_trunc_div_between(seq_sum(w), w.len() as int, seq_min(w), seq_max(w));
}

} // verus!
