//! Inclusive ranges of integers, with the zooming and panning used by plots.
use vstd::prelude::*;

verus! {

/// Integer division rounding toward zero, as Rust's `/` does on signed integers.
pub open spec fn trunc_div(a: int, b: int) -> int
    recommends
        b != 0,
{
    let q = if a >= 0 { a } else { -a } / (if b >= 0 { b } else { -b });
    if (a >= 0) == (b > 0) {
        q
    } else {
        -q
    }
}

/// Signed division rounding toward zero, computed on the magnitudes.
pub fn div_trunc(a: i64, b: i64) -> (r: i64)
    requires
        b != 0,
        a != i64::MIN,
        b != i64::MIN,
    ensures
        r == trunc_div(a as int, b as int),
{
    let ua: u64 = if a >= 0 { a as u64 } else { (-a) as u64 };
    let ub: u64 = if b >= 0 { b as u64 } else { (-b) as u64 };
    let q: u64 = ua / ub;
    assert(q <= ua) by (nonlinear_arith)
        requires
            ub >= 1,
            q == ua / ub,
    ;
    if (a >= 0) == (b > 0) {
        q as i64
    } else {
        -(q as i64)
    }
}

/// An inclusive range `min..=max`.
#[derive(Clone, Copy, PartialEq, Eq, Debug, Default)]
pub struct RangeIncl<N> {
    pub min: N,
    pub max: N,
}

/// The smaller of two integers.
pub open spec fn min_of(a: int, b: int) -> int {
    if a < b { a } else { b }
}

/// The larger of two integers.
pub open spec fn max_of(a: int, b: int) -> int {
    if a > b { a } else { b }
}

/// The smallest value of a non-empty sequence.
pub open spec fn seq_min(s: Seq<i32>) -> int
    recommends
        s.len() > 0,
    decreases s.len(),
{
    if s.len() <= 1 {
        s[0] as int
    } else {
        min_of(seq_min(s.drop_last()), s.last() as int)
    }
}

/// The largest value of a non-empty sequence.
pub open spec fn seq_max(s: Seq<i32>) -> int
    recommends
        s.len() > 0,
    decreases s.len(),
{
    if s.len() <= 1 {
        s[0] as int
    } else {
        max_of(seq_max(s.drop_last()), s.last() as int)
    }
}

/// The smallest lower end among non-empty ranges.
pub open spec fn ranges_min(s: Seq<RangeIncl<i32>>) -> int
    recommends
        s.len() > 0,
    decreases s.len(),
{
    if s.len() <= 1 {
        s[0].min as int
    } else {
        min_of(ranges_min(s.drop_last()), s.last().min as int)
    }
}

/// The largest upper end among non-empty ranges.
pub open spec fn ranges_max(s: Seq<RangeIncl<i32>>) -> int
    recommends
        s.len() > 0,
    decreases s.len(),
{
    if s.len() <= 1 {
        s[0].max as int
    } else {
        max_of(ranges_max(s.drop_last()), s.last().max as int)
    }
}

/// A lower and an upper bound on every value bound the smallest and the largest value too.
pub proof fn lemma_seq_min_max_within(s: Seq<i32>, lo: int, hi: int)
    requires
        s.len() > 0,
        forall|i: int| 0 <= i < s.len() ==> lo <= #[trigger] s[i] <= hi,
    ensures
        lo <= seq_min(s) <= hi,
        lo <= seq_max(s) <= hi,
    decreases s.len(),
{
    if s.len() > 1 {
        lemma_seq_min_max_within(s.drop_last(), lo, hi);
    }
}

impl<N> RangeIncl<N> {
    pub fn new(min: N, max: N) -> (r: Self)
        ensures
            r.min == min,
            r.max == max,
    {
        Self { min, max }
    }

    /// The half-open range `min..max`.
    pub fn into_range(self) -> (r: core::ops::Range<N>)
        ensures
            r.start == self.min,
            r.end == self.max,
    {
        core::ops::Range { start: self.min, end: self.max }
    }

    /// The inclusive range `min..=max`.
    pub fn into_range_inclusive(self) -> (r: core::ops::RangeInclusive<N>)
        ensures
            r@.start == self.min,
            r@.end == self.max,
    {
        core::ops::RangeInclusive::new(self.min, self.max)
    }
}

impl RangeIncl<i32> {
    /// Whether `value` lies in the range.
    pub open spec fn holds(self, value: int) -> bool {
        self.min <= value <= self.max
    }

    /// The range widened just enough to hold `new`.
    pub open spec fn expanded(self, new: i32) -> RangeIncl<i32> {
        RangeIncl { min: min_of(self.min as int, new as int) as i32, max: max_of(self.max as int, new as int) as i32 }
    }

    /// The range with both ends moved by `delta`.
    pub open spec fn panned(self, delta: int) -> RangeIncl<i32> {
        RangeIncl { min: (self.min + delta) as i32, max: (self.max + delta) as i32 }
    }

    /// The ends scaled by `factor` about `center`, in order.
    pub open spec fn zoomed(self, center: int, factor: int) -> RangeIncl<i32> {
        let a = center + (self.min - center) * factor;
        let b = center + (self.max - center) * factor;
        RangeIncl { min: min_of(a, b) as i32, max: max_of(a, b) as i32 }
    }

    /// The smallest range covering both `self` and `other`.
    pub open spec fn hull(self, other: RangeIncl<i32>) -> RangeIncl<i32> {
        RangeIncl {
            min: min_of(self.min as int, other.min as int) as i32,
            max: max_of(self.max as int, other.max as int) as i32,
        }
    }

    /// `max - min`.
    pub fn width(&self) -> (r: i32)
        requires
            i32::MIN <= self.max - self.min <= i32::MAX,
        ensures
            r == self.max - self.min,
    {
        self.max - self.min
    }

    /// `(max + min) / 2`, rounded toward zero.
    pub fn center(&self) -> (r: i32)
        requires
            i32::MIN <= self.max + self.min <= i32::MAX,
        ensures
            r == trunc_div(self.max + self.min, 2),
    {
        let s = (self.max as i64) + (self.min as i64);
        div_trunc(s, 2) as i32
    }

    /// `(value - min) / (max - min)`, rounded toward zero: where `value` sits in the range.
    pub fn map(&self, value: i32) -> (r: i32)
        requires
            i32::MIN <= value - self.min <= i32::MAX,
            i32::MIN <= self.max - self.min <= i32::MAX,
            self.max != self.min,
            !(value - self.min == i32::MIN && self.max - self.min == -1),
        ensures
            r == trunc_div(value - self.min, self.max - self.min),
    {
        let num = value - self.min;
        let den = self.width();
        let q = div_trunc(num as i64, den as i64);
        assert(i32::MIN <= q <= i32::MAX) by {
            let a = num as int;
            let b = den as int;
            let ua = if a >= 0 { a } else { -a };
            let ub = if b >= 0 { b } else { -b };
            assert(ua / ub <= ua) by (nonlinear_arith)
                requires
                    ub >= 1,
                    ua >= 0,
            ;
            assert(ua / ub >= 0) by (nonlinear_arith)
                requires
                    ub >= 1,
                    ua >= 0,
            ;
            if ub == 1 {
                assert(ua / ub == ua) by (nonlinear_arith)
                    requires
                        ub == 1,
                ;
            } else {
                assert(ua / ub <= ua / 2) by (nonlinear_arith)
                    requires
                        ub >= 2,
                        ua >= 0,
                ;
            }
        }
        q as i32
    }

    /// Scales the range by `factor` about `center`; the ends are swapped if that reverses them.
    pub fn zoom(&mut self, center: i32, factor: i32)
        requires
            i32::MIN <= old(self).min - center <= i32::MAX,
            i32::MIN <= old(self).max - center <= i32::MAX,
            i32::MIN <= (old(self).min - center) * factor <= i32::MAX,
            i32::MIN <= (old(self).max - center) * factor <= i32::MAX,
            i32::MIN <= center + (old(self).min - center) * factor <= i32::MAX,
            i32::MIN <= center + (old(self).max - center) * factor <= i32::MAX,
        ensures
            *final(self) == old(self).zoomed(center as int, factor as int),
    {
        let a = center + (self.min - center) * factor;
        let b = center + (self.max - center) * factor;
        self.min = a;
        self.max = b;
        if self.min > self.max {
            let t = self.min;
            self.min = self.max;
            self.max = t;
        }
    }

    /// Moves both ends by `delta`.
    pub fn pan(&mut self, delta: i32)
        requires
            i32::MIN <= old(self).min + delta <= i32::MAX,
            i32::MIN <= old(self).max + delta <= i32::MAX,
        ensures
            *final(self) == old(self).panned(delta as int),
    {
        self.min = self.min + delta;
        self.max = self.max + delta;
    }

    /// The range widened just enough to hold `new`.
    pub fn expand(&self, new: i32) -> (r: Self)
        ensures
            r == self.expanded(new),
    {
        Self::new(
            if self.min < new { self.min } else { new },
            if self.max > new { self.max } else { new },
        )
    }

    /// The smallest range covering both `self` and `new`.
    pub fn max(&self, new: RangeIncl<i32>) -> (r: Self)
        ensures
            r == self.hull(new),
    {
        Self::new(
            if self.min < new.min { self.min } else { new.min },
            if self.max > new.max { self.max } else { new.max },
        )
    }

    /// The smallest range holding every value, or `None` when there are none.
    pub fn from_iter_val(values: &[i32]) -> (r: Option<RangeIncl<i32>>)
        ensures
            values@.len() == 0 <==> r is None,
            r matches Some(range) ==> range.min == seq_min(values@) && range.max == seq_max(
                values@,
            ),
    {
        let mut acc: Option<RangeIncl<i32>> = None;
        let mut i: usize = 0;
        while i < values.len()
            invariant
                i <= values@.len(),
                i == 0 <==> acc is None,
                acc matches Some(a) ==> a.min == seq_min(values@.take(i as int)) && a.max
                    == seq_max(values@.take(i as int)),
            decreases values@.len() - i,
        {
            let n = values[i];
            assert(values@.take(i + 1).drop_last() =~= values@.take(i as int));
            acc = match acc {
                Some(a) => Some(a.expand(n)),
                None => Some(RangeIncl::new(n, n)),
            };
            i = i + 1;
        }
        assert(values@.take(values@.len() as int) =~= values@);
        acc
    }

    /// The smallest range covering every given range, or `None` when there are none.
    pub fn from_iter_range(ranges: &[RangeIncl<i32>]) -> (r: Option<RangeIncl<i32>>)
        ensures
            ranges@.len() == 0 <==> r is None,
            r matches Some(range) ==> range.min == ranges_min(ranges@) && range.max
                == ranges_max(ranges@),
    {
        let mut acc: Option<RangeIncl<i32>> = None;
        let mut i: usize = 0;
        while i < ranges.len()
            invariant
                i <= ranges@.len(),
                i == 0 <==> acc is None,
                acc matches Some(a) ==> a.min == ranges_min(ranges@.take(i as int)) && a.max
                    == ranges_max(ranges@.take(i as int)),
            decreases ranges@.len() - i,
        {
            let n = ranges[i];
            assert(ranges@.take(i + 1).drop_last() =~= ranges@.take(i as int));
            acc = match acc {
                Some(a) => Some(a.max(n)),
                None => Some(n),
            };
            i = i + 1;
        }
        assert(ranges@.take(ranges@.len() as int) =~= ranges@);
        acc
    }

    /// Whether `value` lies in the range.
    pub fn contains(&self, value: i32) -> (r: bool)
        ensures
            r == self.holds(value as int),
    {
        self.min <= value && value <= self.max
    }
}

/// Expanding a range by a value gives a range that holds the value and every value the range
/// held.
pub proof fn law_expand_covers(r: RangeIncl<i32>, v: i32, x: int)
    ensures
        r.expanded(v).holds(v as int),
        r.holds(x) ==> r.expanded(v).holds(x),
{
}

/// The hull of two ranges holds every value that either range holds.
pub proof fn law_hull_covers(a: RangeIncl<i32>, b: RangeIncl<i32>, x: int)
    ensures
        a.holds(x) ==> a.hull(b).holds(x),
        b.holds(x) ==> a.hull(b).holds(x),
        a.hull(b) == b.hull(a),
{
}

/// Zooming always leaves the lower end at or below the upper end, whatever the factor.
pub proof fn law_zoom_ordered(r: RangeIncl<i32>, center: i32, factor: i32)
    requires
        i32::MIN <= center + (r.min - center) * factor <= i32::MAX,
        i32::MIN <= center + (r.max - center) * factor <= i32::MAX,
    ensures
        r.zoomed(center as int, factor as int).min <= r.zoomed(center as int, factor as int).max,
{
}

/// Panning by `delta` and then by `-delta` gives back the range.
pub proof fn law_pan_undone(r: RangeIncl<i32>, delta: i32)
    requires
        i32::MIN <= r.min + delta <= i32::MAX,
        i32::MIN <= r.max + delta <= i32::MAX,
    ensures
        r.panned(delta as int).panned(-delta) == r,
{
}

/// The range of a non-empty list of values holds every value, and its ends are values of the
/// list.
pub proof fn law_range_of_values(values: Seq<i32>)
    requires
        values.len() > 0,
    ensures
        forall|i: int| 0 <= i < values.len() ==> seq_min(values) <= #[trigger] values[i] <= seq_max(values),
        exists|i: int| 0 <= i < values.len() && values[i] == seq_min(values),
        exists|i: int| 0 <= i < values.len() && values[i] == seq_max(values),
    decreases values.len(),
{
    if values.len() > 1 {
        let init = values.drop_last();
        law_range_of_values(init);
        assert forall|i: int| 0 <= i < values.len() implies seq_min(values) <= #[trigger] values[i]
            <= seq_max(values) by {
            if i < values.len() - 1 {
                assert(values[i] == init[i]);
            }
        }
        let a = choose|i: int| 0 <= i < init.len() && init[i] == seq_min(init);
        let b = choose|i: int| 0 <= i < init.len() && init[i] == seq_max(init);
        assert(values[a] == init[a]);
        assert(values[b] == init[b]);
        assert(values[values.len() - 1] == values.last());
    } else {
        assert(values[0] == seq_min(values));
    }
}

/// The range covering a non-empty list of ranges covers each of them.
pub proof fn law_range_of_ranges(ranges: Seq<RangeIncl<i32>>)
    requires
        ranges.len() > 0,
    ensures
        forall|i: int|
            0 <= i < ranges.len() ==> ranges_min(ranges) <= (#[trigger] ranges[i]).min && ranges[i].max
                <= ranges_max(ranges),
        exists|i: int| 0 <= i < ranges.len() && ranges_min(ranges) == ranges[i].min,
        exists|i: int| 0 <= i < ranges.len() && ranges_max(ranges) == ranges[i].max,
    decreases ranges.len(),
{
    if ranges.len() > 1 {
        let init = ranges.drop_last();
        law_range_of_ranges(init);
        assert forall|i: int| 0 <= i < ranges.len() implies ranges_min(ranges) <= (
        #[trigger] ranges[i]).min && ranges[i].max <= ranges_max(ranges) by {
            if i < ranges.len() - 1 {
                assert(ranges[i] == init[i]);
            }
        }
        let a = choose|i: int| 0 <= i < init.len() && ranges_min(init) == init[i].min;
        let b = choose|i: int| 0 <= i < init.len() && ranges_max(init) == init[i].max;
        assert(ranges[a] == init[a]);
        assert(ranges[b] == init[b]);
        assert(ranges[ranges.len() - 1] == ranges.last());
    } else {
        assert(ranges_min(ranges) == ranges[0].min);
        assert(ranges_max(ranges) == ranges[0].max);
    }
}

} // verus!
