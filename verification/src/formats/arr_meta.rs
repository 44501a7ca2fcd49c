//! Statistics of the values of a series, kept as minimum, maximum, mean, variance and standard
//! deviation.
use vstd::prelude::*;

use crate::common::arr_meta::{
    abs, div_count, is_isqrt, isqrt, lemma_rounding_divisions_fit, seq_sum, seq_sum_sq, stats_fit,
    widen_u8,
};
use crate::common::range::{max_of, min_of, seq_max, seq_min, trunc_div};

verus! {

/// Minimum, maximum, mean, variance and standard deviation of a series.
#[derive(Debug, Clone, Copy, PartialEq, Eq)]
pub struct ArrayStats<N, M = N> {
    pub min: N,
    pub max: N,
    pub mean: M,
    pub variance: M,
    pub std_dev: M,
}

/// A range `min..max`.
#[derive(Debug, Clone, Copy, PartialEq, Eq)]
pub struct Range<N> {
    pub min: N,
    pub max: N,
}

/// The smallest minimum among non-empty statistics.
pub open spec fn stats_min(s: Seq<ArrayStats<i32, i128>>) -> int
    recommends
        s.len() > 0,
    decreases s.len(),
{
    if s.len() <= 1 {
        s[0].min as int
    } else {
        min_of(stats_min(s.drop_last()), s.last().min as int)
    }
}

/// The largest maximum among non-empty statistics.
pub open spec fn stats_max(s: Seq<ArrayStats<i32, i128>>) -> int
    recommends
        s.len() > 0,
    decreases s.len(),
{
    if s.len() <= 1 {
        s[0].max as int
    } else {
        max_of(stats_max(s.drop_last()), s.last().max as int)
    }
}

proof fn lemma_sums_fit(s: Seq<i32>)
    ensures
        -(s.len() * 0x8000_0000) <= seq_sum(s) <= s.len() * 0x7fff_ffff,
        0 <= seq_sum_sq(s) <= s.len() * 0x4000_0000_0000_0000,
    decreases s.len(),
{
    if s.len() > 0 {
        lemma_sums_fit(s.drop_last());
        let x = s.last();
        assert(0 <= x * x <= 0x4000_0000_0000_0000) by (nonlinear_arith)
            requires
                -0x8000_0000 <= x <= 0x7fff_ffff,
        ;
    }
}

proof fn lemma_len_products(n: int)
    requires
        0 <= n <= 0x1_0000_0000_0000_0000,
    ensures
        n * 0x7fff_ffff <= 0x1_0000_0000_0000_0000 * 0x7fff_ffff,
        n * 0x8000_0000 <= 0x1_0000_0000_0000_0000 * 0x8000_0000,
        n * 0x4000_0000_0000_0000 <= 0x1_0000_0000_0000_0000 * 0x4000_0000_0000_0000,
{
    assert(n * 0x7fff_ffff <= 0x1_0000_0000_0000_0000 * 0x7fff_ffff) by (nonlinear_arith)
        requires
            0 <= n <= 0x1_0000_0000_0000_0000,
    ;
    assert(n * 0x8000_0000 <= 0x1_0000_0000_0000_0000 * 0x8000_0000) by (nonlinear_arith)
        requires
            0 <= n <= 0x1_0000_0000_0000_0000,
    ;
    assert(n * 0x4000_0000_0000_0000 <= 0x1_0000_0000_0000_0000 * 0x4000_0000_0000_0000)
        by (nonlinear_arith)
        requires
            0 <= n <= 0x1_0000_0000_0000_0000,
    ;
}

impl ArrayStats<i32, i128> {
    /// The statistics of a non-empty series, `None` for an empty one.
    ///
    /// `mean` is `div(sum, count)`, `variance` is `div(sum of squares, count) - mean * mean`
    /// and `std_dev` is `sqrt(variance)`.
    ///
    /// What the division gives on the series must keep `mean * mean` and the variance within
    /// `i128` (`stats_fit`); a division that rounds as integer division does always does
    /// (`lemma_rounding_divisions_fit`).
    pub fn new<D, R>(data: &[i32], div: D, sqrt: R) -> (r: Option<Self>) where
        D: Fn(i128, usize) -> i128,
        R: Fn(i128) -> i128,

        requires
            forall|a: i128, c: usize| #[trigger] call_requires(div, (a, c)),
            forall|v: i128| #[trigger] call_requires(sqrt, (v,)),
            stats_fit(data@, div, div),
        ensures
            data@.len() == 0 <==> r is None,
            r matches Some(s) ==> {
                &&& s.min == seq_min(data@)
                &&& s.max == seq_max(data@)
                &&& call_ensures(div, (seq_sum(data@) as i128, data@.len() as usize), s.mean)
                &&& exists|q: i128|
                    #[trigger] call_ensures(
                        div,
                        (seq_sum_sq(data@) as i128, data@.len() as usize),
                        q,
                    ) && s.variance == q - s.mean * s.mean
                &&& call_ensures(sqrt, (s.variance,), s.std_dev)
            },
    {
        if data.len() == 0 {
            return None;
        }
        let first = data[0];
        let first_m = first as i128;
        let mut min = first;
        let mut max = first;
        let mut sum: i128 = first_m;
        assert(0 <= first_m * first_m <= 0x4000_0000_0000_0000) by (nonlinear_arith)
            requires
                -0x8000_0000 <= first_m <= 0x7fff_ffff,
        ;
        let mut sum_sq: i128 = first_m * first_m;
        let mut count: usize = 1;
        assert(data@.take(1).drop_last() =~= Seq::<i32>::empty());
        assert(data@.take(1).last() == first);
        assert(seq_sum(data@.take(1)) == first) by {
            reveal_with_fuel(seq_sum, 2);
        }
        assert(seq_sum_sq(data@.take(1)) == first * first) by {
            reveal_with_fuel(seq_sum_sq, 2);
        }
        while count < data.len()
            invariant
                1 <= count <= data@.len(),
                min == seq_min(data@.take(count as int)),
                max == seq_max(data@.take(count as int)),
                sum == seq_sum(data@.take(count as int)),
                sum_sq == seq_sum_sq(data@.take(count as int)),
            decreases data@.len() - count,
        {
            let value = data[count];
            proof {
                assert(data@.take(count + 1).drop_last() =~= data@.take(count as int));
                lemma_sums_fit(data@.take(count + 1));
                lemma_len_products(count + 1);
            }
            if value < min {
                min = value;
            }
            if value > max {
                max = value;
            }
            let value_m = value as i128;
            assert(0 <= value_m * value_m <= 0x4000_0000_0000_0000) by (nonlinear_arith)
                requires
                    -0x8000_0000 <= value_m <= 0x7fff_ffff,
            ;
            sum = sum + value_m;
            sum_sq = sum_sq + value_m * value_m;
            count = count + 1;
        }
        assert(data@.take(count as int) =~= data@);
        proof {
            lemma_sums_fit(data@);
        }
        let mean = div(sum, count);
        let mean_sq = div(sum_sq, count);
        proof {
            assert(sum == seq_sum(data@) as i128);
            assert(sum_sq == seq_sum_sq(data@) as i128);
            assert(count == data@.len() as usize);
            assert(call_ensures(div, (seq_sum(data@) as i128, data@.len() as usize), mean));
            assert(call_ensures(div, (seq_sum_sq(data@) as i128, data@.len() as usize), mean_sq));
        }
        let variance = mean_sq - mean * mean;
        let std_dev = sqrt(variance);
        Some(ArrayStats { min, max, mean, variance, std_dev })
    }

    /// The range from the smallest minimum to the largest maximum of the given statistics,
    /// `None` when there are none.
    pub fn bounds(stats: &[Self]) -> (r: Option<Range<i32>>)
        ensures
            stats@.len() == 0 <==> r is None,
            r matches Some(range) ==> range.min == stats_min(stats@) && range.max == stats_max(
                stats@,
            ),
    {
        if stats.len() == 0 {
            return None;
        }
        let mut range = Range { min: stats[0].min, max: stats[0].max };
        let mut i: usize = 1;
        assert(stats@.take(1).drop_last() =~= Seq::<Self>::empty());
        while i < stats.len()
            invariant
                1 <= i <= stats@.len(),
                range.min == stats_min(stats@.take(i as int)),
                range.max == stats_max(stats@.take(i as int)),
            decreases stats@.len() - i,
        {
            assert(stats@.take(i + 1).drop_last() =~= stats@.take(i as int));
            let s = stats[i];
            if s.min < range.min {
                range.min = s.min;
            }
            if s.max > range.max {
                range.max = s.max;
            }
            i = i + 1;
        }
        assert(stats@.take(i as int) =~= stats@);
        Some(range)
    }

    /// The statistics of a series of bytes, computed on integers: the mean and the mean of the
    /// squares are rounded toward zero and the standard deviation is the integer square root of
    /// the variance.
    pub fn new_u8(data: &[u8]) -> (r: Option<ArrayStats<u8, i128>>)
        ensures
            data@.len() == 0 <==> r is None,
            r matches Some(s) ==> {
                let w = widen_u8(data@);
                let n = data@.len() as int;
                &&& s.min == seq_min(w)
                &&& s.max == seq_max(w)
                &&& s.mean == trunc_div(seq_sum(w), n)
                &&& s.variance == trunc_div(seq_sum_sq(w), n) - s.mean * s.mean
                &&& is_isqrt(s.variance as int, s.std_dev as int)
            },
    {
        let mut wide: Vec<i32> = Vec::new();
        let mut i: usize = 0;
        while i < data.len()
            invariant
                i <= data@.len(),
                wide@ == widen_u8(data@.take(i as int)),
            decreases data@.len() - i,
        {
            wide.push(data[i] as i32);
            i = i + 1;
            assert(wide@ =~= widen_u8(data@.take(i as int)));
        }
        assert(data@.take(i as int) =~= data@);
        assert(wide@.len() == data@.len());
        assert forall|a: i128, c: usize, q: i128|
            c >= 1 && #[trigger] call_ensures(div_count, (a, c), q) implies abs(q as int) <= abs(
            a as int,
        ) / (c as int) + 1 by {}
        proof {
            lemma_rounding_divisions_fit(wide@, div_count, div_count);
        }
        let stats = Self::new(wide.as_slice(), div_count, isqrt);
        if stats.is_none() {
            return None;
        }
        let s = stats.unwrap();
        proof {
            assert(forall|k: int| 0 <= k < wide@.len() ==> 0 <= #[trigger] wide@[k] <= 255);
            crate::common::range::lemma_seq_min_max_within(wide@, 0, 255);
            lemma_sums_fit(wide@);
            lemma_len_products(wide@.len() as int);
        }
        Some(
            ArrayStats {
                min: s.min as u8,
                max: s.max as u8,
                mean: s.mean,
                variance: s.variance,
                std_dev: s.std_dev,
            },
        )
    }
}

impl<N> Range<N> {
    pub fn new(min: N, max: N) -> (r: Self)
        ensures
            r.min == min,
            r.max == max,
    {
        Self { min, max }
    }
}

impl Range<i32> {
    /// `max - min`.
    pub fn width(&self) -> (r: i32)
        requires
            i32::MIN <= self.max - self.min <= i32::MAX,
        ensures
            r == self.max - self.min,
    {
        self.max - self.min
    }

    /// `(value - min) / (max - min)`, rounded toward zero: where `value` sits in the range.
    pub fn map(&self, value: i32) -> (r: i32)
        requires
            i32::MIN <= value - self.min <= i32::MAX,
            i32::MIN <= self.max - self.min <= i32::MAX,
            self.max != self.min,
            !(value - self.min == i32::MIN && self.max - self.min == -1),
        ensures
            r == trunc_div(value - self.min, self.max - self.min),
    {
        let r = crate::common::range::RangeIncl { min: self.min, max: self.max };
        r.map(value)
    }
}

/// The bounds of non-empty statistics run from the smallest of their minima to the largest of
/// their maxima: every statistics' range lies within them, and each end is an end of one of
/// the statistics.
pub proof fn law_stats_bounds(s: Seq<ArrayStats<i32, i128>>)
    requires
        s.len() > 0,
    ensures
        forall|i: int|
            0 <= i < s.len() ==> stats_min(s) <= (#[trigger] s[i]).min && s[i].max <= stats_max(s),
        exists|i: int| 0 <= i < s.len() && stats_min(s) == s[i].min,
        exists|i: int| 0 <= i < s.len() && stats_max(s) == s[i].max,
    decreases s.len(),
{
    if s.len() > 1 {
        let init = s.drop_last();
        law_stats_bounds(init);
        assert forall|i: int| 0 <= i < s.len() implies stats_min(s) <= (#[trigger] s[i]).min
            && s[i].max <= stats_max(s) by {
            if i < s.len() - 1 {
                assert(s[i] == init[i]);
            }
        }
        let a = choose|i: int| 0 <= i < init.len() && stats_min(init) == init[i].min;
        let b = choose|i: int| 0 <= i < init.len() && stats_max(init) == init[i].max;
        assert(s[a] == init[a]);
        assert(s[b] == init[b]);
        assert(s[s.len() - 1] == s.last());
    } else {
        assert(stats_min(s) == s[0].min);
        assert(stats_max(s) == s[0].max);
    }
}

} // verus!
