//! Series of values laid out as a multi-dimensional array, and time series whose first axis is
//! time. An array is held as its values in row-major order with its shape: for shape
//! `[n0, n1, ..]`, the values at index `i` of the first axis are the `i`-th run of
//! `n1 * n2 * ..` values.
use vstd::prelude::*;

use crate::common::arr_meta::ArrayStats;

verus! {

/// The number of values of an array of shape `shape`.
pub open spec fn shape_len(shape: Seq<usize>) -> int
    decreases shape.len(),
{
    if shape.len() == 0 {
        1
    } else {
        shape[0] * shape_len(shape.skip(1))
    }
}

/// Whether `len` values make an array of shape `shape` with at least one axis, whose entries
/// along the first axis can be counted in `usize`.
pub open spec fn shape_ok(len: int, shape: Seq<usize>) -> bool {
    &&& shape.len() >= 1
    &&& len == shape_len(shape)
    &&& shape_len(shape.skip(1)) <= usize::MAX
}

proof fn lemma_shape_len_nonneg(shape: Seq<usize>)
    ensures
        shape_len(shape) >= 0,
    decreases shape.len(),
{
    if shape.len() > 0 {
        lemma_shape_len_nonneg(shape.skip(1));
        let a = shape[0] as int;
        let b = shape_len(shape.skip(1));
        assert(a * b >= 0) by (nonlinear_arith)
            requires
                a >= 0,
                b >= 0,
        ;
    }
}

/// The number of values of one entry along the first axis: the product of the other axes.
fn entry_len(shape: &[usize]) -> (r: usize)
    requires
        shape@.len() >= 1,
        shape_len(shape@.skip(1)) <= usize::MAX,
    ensures
        r == shape_len(shape@.skip(1)),
{
    let mut z: usize = 1;
    while z < shape.len()
        invariant
            1 <= z <= shape@.len(),
            forall|k: int| 1 <= k < z ==> shape@[k] != 0,
        decreases shape@.len() - z,
    {
        if shape[z] == 0 {
            proof {
                lemma_zero_axis(shape@, 1, z as int);
            }
            return 0;
        }
        z = z + 1;
    }
    let mut i = shape.len();
    let mut p: usize = 1;
    assert(shape@.skip(shape@.len() as int) =~= Seq::<usize>::empty());
    while i > 1
        invariant
            1 <= i <= shape@.len(),
            p == shape_len(shape@.skip(i as int)),
            shape_len(shape@.skip(1)) <= usize::MAX,
            forall|k: int| 1 <= k < shape@.len() ==> shape@[k] != 0,
        decreases i,
    {
        let ghost rest = shape@.skip(i as int);
        assert(shape@.skip(i - 1).skip(1) =~= rest);
        assert(shape@.skip(i - 1)[0] == shape@[i - 1]);
        proof {
            lemma_shape_len_nonneg(rest);
            lemma_suffix_le(shape@, 1, i - 1);
        }
        p = shape[i - 1] * p;
        i = i - 1;
    }
    p
}

/// Where no axis from `a` on is zero, the product over a shorter suffix is at most the product
/// over a longer one.
proof fn lemma_suffix_le(shape: Seq<usize>, a: int, b: int)
    requires
        0 <= a <= b <= shape.len(),
        forall|k: int| a <= k < shape.len() ==> shape[k] != 0,
    ensures
        shape_len(shape.skip(b)) <= shape_len(shape.skip(a)),
    decreases b - a,
{
    lemma_shape_len_nonneg(shape.skip(a));
    if a < b {
        lemma_suffix_le(shape, a + 1, b);
        assert(shape.skip(a).skip(1) =~= shape.skip(a + 1));
        assert(shape.skip(a)[0] == shape[a]);
        let x = shape[a] as int;
        let y = shape_len(shape.skip(a + 1));
        lemma_shape_len_nonneg(shape.skip(a + 1));
        assert(x * y >= y) by (nonlinear_arith)
            requires
                x >= 1,
                y >= 0,
        ;
    }
}

/// An axis of length zero from `a` on makes the product over the suffix from `a` zero.
proof fn lemma_zero_axis(shape: Seq<usize>, a: int, k: int)
    requires
        0 <= a <= k < shape.len(),
        shape[k] == 0,
    ensures
        shape_len(shape.skip(a)) == 0,
    decreases k - a,
{
    assert(shape.skip(a).skip(1) =~= shape.skip(a + 1));
    assert(shape.skip(a)[0] == shape[a]);
    if a < k {
        lemma_zero_axis(shape, a + 1, k);
        let x = shape[a] as int;
        assert(x * 0 == 0);
    }
}

/// A multi-dimensional array of values with their statistics.
#[derive(Debug)]
pub struct Series<T> {
    pub data: Vec<T>,
    pub shape: Vec<usize>,
    pub stats: ArrayStats<T>,
}

/// A borrowed multi-dimensional array of values with their statistics.
#[derive(Debug, Clone, Copy)]
pub struct SeriesView<'a, T> {
    pub data: &'a [T],
    pub shape: &'a [usize],
    pub stats: ArrayStats<T>,
}

impl<T: Copy> Series<T> {
    /// The values, in row-major order.
    pub open spec fn values(self) -> Seq<T> {
        self.data@
    }

    /// The shape.
    pub open spec fn dims(self) -> Seq<usize> {
        self.shape@
    }

    /// Whether the values make an array of the shape.
    pub open spec fn wf(self) -> bool {
        shape_ok(self.data@.len() as int, self.shape@)
    }

    /// The array of shape `shape` holding `data` in row-major order.
    pub fn new(data: Vec<T>, shape: Vec<usize>, stats: ArrayStats<T>) -> (r: Self)
        requires
            shape_ok(data@.len() as int, shape@),
        ensures
            r.wf(),
            r.values() == data@,
            r.dims() == shape@,
            r.stats == stats,
    {
        Series { data, shape, stats }
    }

    /// A view of the whole array.
    pub fn view(&self) -> (r: SeriesView<'_, T>)
        ensures
            r.data@ == self.values(),
            r.shape@ == self.dims(),
            r.stats == self.stats,
    {
        SeriesView { data: self.data.as_slice(), shape: self.shape.as_slice(), stats: self.stats }
    }

    /// The values, in row-major order.
    pub fn iter(&self) -> (r: Vec<T>)
        ensures
            r@ == self.values(),
    {
        copy_all(self.data.as_slice())
    }
}

/// The values of `s`, copied.
fn copy_all<T: Copy>(s: &[T]) -> (r: Vec<T>)
    ensures
        r@ == s@,
{
    let mut r: Vec<T> = Vec::new();
    let mut i: usize = 0;
    while i < s.len()
        invariant
            i <= s@.len(),
            r@ == s@.take(i as int),
        decreases s@.len() - i,
    {
        r.push(s[i]);
        i = i + 1;
        assert(r@ =~= s@.take(i as int));
    }
    assert(s@.take(i as int) =~= s@);
    r
}

/// The pairs of `a[i]` and `b[i]` for the positions both have.
pub open spec fn zipped<A, B>(a: Seq<A>, b: Seq<B>) -> Seq<(A, B)> {
    Seq::new(if a.len() <= b.len() { a.len() } else { b.len() }, |i: int| (a[i], b[i]))
}

/// The pairs of `a[i]` and `b[i]` for the positions both have.
fn zip_copy<A: Copy, B: Copy>(a: &[A], b: &[B]) -> (r: Vec<(A, B)>)
    ensures
        r@ == zipped(a@, b@),
{
    let n = if a.len() <= b.len() {
        a.len()
    } else {
        b.len()
    };
    let mut r: Vec<(A, B)> = Vec::new();
    let mut i: usize = 0;
    while i < n
        invariant
            i <= n,
            n == if a@.len() <= b@.len() { a@.len() } else { b@.len() },
            r@ =~= zipped(a@, b@).take(i as int),
        decreases n - i,
    {
        r.push((a[i], b[i]));
        i = i + 1;
    }
    assert(zipped(a@, b@).take(i as int) =~= zipped(a@, b@));
    r
}

impl<'a, T: Copy> SeriesView<'a, T> {
    /// The view of `data`, an array of shape `shape`.
    pub fn new(data: &'a [T], shape: &'a [usize], stats: ArrayStats<T>) -> (r: Self)
        requires
            shape_ok(data@.len() as int, shape@),
        ensures
            r.data@ == data@,
            r.shape@ == shape@,
            r.stats == stats,
    {
        SeriesView { data, shape, stats }
    }

    /// The values, in row-major order.
    pub fn iter(&self) -> (r: Vec<T>)
        ensures
            r@ == self.data@,
    {
        copy_all(self.data)
    }
}

/// A series over time: the times, in seconds, and the values, whose first axis is time.
#[derive(Debug)]
pub struct TimeSeries<Value, Time> {
    pub time_in_seconds: Series<Time>,
    pub values: Series<Value>,
    pub unit: String,
    pub name: String,
}

/// A borrowed series over time.
#[derive(Debug, Clone, Copy)]
pub struct TimeSeriesView<'a, Value, Time> {
    pub time_in_seconds: SeriesView<'a, Time>,
    /// Axis 0 is time.
    pub values: SeriesView<'a, Value>,
    pub unit: &'a str,
    pub name: &'a str,
}

/// The values of a series at one time.
#[derive(Debug, Clone, Copy)]
pub struct TimeSeriesFrame<'a, Value, Time> {
    pub time_in_seconds: Time,
    pub values: SeriesView<'a, Value>,
    pub unit: &'a str,
    pub name: &'a str,
}

impl<Value: Copy, Time: Copy> TimeSeries<Value, Time> {
    /// The unit of the values.
    pub open spec fn unit_text(self) -> Seq<char> {
        self.unit@
    }

    /// The name of the series.
    pub open spec fn name_text(self) -> Seq<char> {
        self.name@
    }

    /// The series of `values` at the times `time_in_seconds`, one time per entry along the
    /// first axis of the values.
    pub fn new(name: String, unit: String, time_in_seconds: Series<Time>, values: Series<Value>) -> (r:
        Self)
        requires
            time_in_seconds.wf(),
            values.wf(),
            time_in_seconds.dims().len() == 1,
            time_in_seconds.values().len() == values.dims()[0],
        ensures
            r.time_in_seconds == time_in_seconds,
            r.values == values,
            r.unit_text() == unit@,
            r.name_text() == name@,
    {
        TimeSeries { time_in_seconds, values, unit, name }
    }

    /// A view of the whole series.
    pub fn view(&self) -> (r: TimeSeriesView<'_, Value, Time>)
        ensures
            r.time_in_seconds.data@ == self.time_in_seconds.values(),
            r.time_in_seconds.shape@ == self.time_in_seconds.dims(),
            r.time_in_seconds.stats == self.time_in_seconds.stats,
            r.values.data@ == self.values.values(),
            r.values.shape@ == self.values.dims(),
            r.values.stats == self.values.stats,
            r.unit@ == self.unit_text(),
            r.name@ == self.name_text(),
    {
        TimeSeriesView {
            name: self.name.as_str(),
            unit: self.unit.as_str(),
            time_in_seconds: self.time_in_seconds.view(),
            values: self.values.view(),
        }
    }

    /// Each time paired with the value at the same position of the values in row-major order,
    /// as far as both go.
    pub fn iter(&self) -> (r: Vec<(Time, Value)>)
        ensures
            r@ == zipped(self.time_in_seconds.values(), self.values.values()),
    {
        zip_copy(self.time_in_seconds.data.as_slice(), self.values.data.as_slice())
    }

    /// The number of times.
    pub fn len(&self) -> (r: usize)
        ensures
            r == self.time_in_seconds.values().len(),
    {
        self.time_in_seconds.data.len()
    }

    /// Whether there are no times.
    pub fn is_empty(&self) -> (r: bool)
        ensures
            r == (self.time_in_seconds.values().len() == 0),
    {
        self.len() == 0
    }
}

impl<'a, Value: Copy, Time: Copy> TimeSeriesView<'a, Value, Time> {
    /// The view of `values` at the times `time_in_seconds`, one per entry along the first axis
    /// of the values.
    pub fn new(
        time_in_seconds: SeriesView<'a, Time>,
        values: SeriesView<'a, Value>,
        unit: &'a str,
        name: &'a str,
    ) -> (r: Self)
        requires
            shape_ok(time_in_seconds.data@.len() as int, time_in_seconds.shape@),
            shape_ok(values.data@.len() as int, values.shape@),
            time_in_seconds.shape@.len() == 1,
            time_in_seconds.data@.len() == values.shape@[0],
        ensures
            r == (TimeSeriesView { time_in_seconds, values, unit, name }),
    {
        TimeSeriesView { time_in_seconds, values, unit, name }
    }

    /// Each time paired with the value at the same position, as far as both go.
    pub fn iter(&self) -> (r: Vec<(Time, Value)>)
        ensures
            r@ == zipped(self.time_in_seconds.data@, self.values.data@),
    {
        zip_copy(self.time_in_seconds.data, self.values.data)
    }

    /// The runs of `window_size` consecutive times and values, from each start that has a full
    /// run of both.
    pub fn iter_windows(&self, window_size: usize) -> (r: Vec<(&'a [Time], &'a [Value])>)
        requires
            window_size >= 1,
        ensures
            r@.len() == (if self.time_in_seconds.data@.len() < window_size
                || self.values.data@.len() < window_size {
                0
            } else {
                (if self.time_in_seconds.data@.len() <= self.values.data@.len() {
                    self.time_in_seconds.data@.len()
                } else {
                    self.values.data@.len()
                }) - window_size + 1
            }),
            forall|i: int|
                0 <= i < r@.len() ==> (#[trigger] r@[i]).0@ == self.time_in_seconds.data@.subrange(
                    i,
                    i + window_size,
                ) && r@[i].1@ == self.values.data@.subrange(i, i + window_size),
    {
        let t: &'a [Time] = self.time_in_seconds.data;
        let v: &'a [Value] = self.values.data;
        let mut r: Vec<(&'a [Time], &'a [Value])> = Vec::new();
        if t.len() < window_size || v.len() < window_size {
            return r;
        }
        let m = if t.len() <= v.len() {
            t.len()
        } else {
            v.len()
        };
        let n = m - window_size + 1;
        let mut i: usize = 0;
        while i < n
            invariant
                i <= n,
                window_size >= 1,
                n + window_size - 1 == m,
                m <= t@.len(),
                m <= v@.len(),
                t@ == self.time_in_seconds.data@,
                v@ == self.values.data@,
                r@.len() == i,
                forall|k: int|
                    0 <= k < i ==> (#[trigger] r@[k]).0@ == t@.subrange(k, k + window_size)
                        && r@[k].1@ == v@.subrange(k, k + window_size),
            decreases n - i,
        {
            let tw = slice_range(t, i, i + window_size);
            let vw = slice_range(v, i, i + window_size);
            r.push((tw, vw));
            i = i + 1;
        }
        r
    }

    /// The values at time `frame_num`, or `None` past the last time.
    pub fn view_frame(&self, frame_num: usize) -> (r: Option<TimeSeriesFrame<'a, Value, Time>>)
        requires
            shape_ok(self.values.data@.len() as int, self.values.shape@),
            self.time_in_seconds.data@.len() == self.values.shape@[0],
        ensures
            frame_num >= self.values.shape@[0] <==> r is None,
            r matches Some(f) ==> {
                let n = shape_len(self.values.shape@.skip(1));
                &&& f.time_in_seconds == self.time_in_seconds.data@[frame_num as int]
                &&& f.values.data@ == self.values.data@.subrange(
                    frame_num * n,
                    (frame_num + 1) * n,
                )
                &&& f.values.shape@ == self.values.shape@.skip(1)
                &&& f.values.stats == self.values.stats
                &&& f.unit == self.unit
                &&& f.name == self.name
            },
    {
        let len = self.values.shape[0];
        if frame_num >= len {
            return None;
        }
        let n = entry_len(self.values.shape);
        let data_len = self.values.data.len();
        proof {
            assert(self.values.shape@.skip(0) =~= self.values.shape@);
            let k = frame_num as int;
            let m = n as int;
            let total = self.values.data@.len() as int;
            assert(total <= usize::MAX);
            assert(total == len * m);
            assert((k + 1) * m <= len * m) by (nonlinear_arith)
                requires
                    k + 1 <= len,
                    m >= 0,
            ;
            assert(0 <= k * m <= (k + 1) * m) by (nonlinear_arith)
                requires
                    k >= 0,
                    m >= 0,
            ;
            assert((k + 1) * m == k * m + m) by (nonlinear_arith);
            assert(total == data_len);
        }
        let start = frame_num * n;
        let end = start + n;
        let data = slice_range(self.values.data, start, end);
        let shape = slice_range(self.values.shape, 1, self.values.shape.len());
        assert(self.values.shape@.subrange(1, self.values.shape@.len() as int) =~= self.values.shape@.skip(1));
        Some(
            TimeSeriesFrame {
                time_in_seconds: self.time_in_seconds.data[frame_num],
                values: SeriesView { data, shape, stats: self.values.stats },
                unit: self.unit,
                name: self.name,
            },
        )
    }

    /// The values at time `index`, which must be one of the times.
    pub fn frame_panic(&self, index: usize) -> (r: TimeSeriesFrame<'a, Value, Time>)
        requires
            shape_ok(self.values.data@.len() as int, self.values.shape@),
            self.time_in_seconds.data@.len() == self.values.shape@[0],
            index < self.values.shape@[0],
        ensures
            r.time_in_seconds == self.time_in_seconds.data@[index as int],
            r.values.data@ == self.values.data@.subrange(
                index * shape_len(self.values.shape@.skip(1)),
                (index + 1) * shape_len(self.values.shape@.skip(1)),
            ),
            r.values.shape@ == self.values.shape@.skip(1),
            r.values.stats == self.values.stats,
            r.unit == self.unit,
            r.name == self.name,
    {
        match self.view_frame(index) {
            Some(f) => f,
            None => vstd::pervasive::unreached(),
        }
    }
}

impl<'a, Value, Time> TimeSeriesFrame<'a, Value, Time> {
    pub fn new(time_in_seconds: Time, values: SeriesView<'a, Value>, unit: &'a str, name: &'a str) -> (r:
        Self)
        ensures
            r == (TimeSeriesFrame { time_in_seconds, values, unit, name }),
    {
        TimeSeriesFrame { time_in_seconds, values, unit, name }
    }
}

/// The part `s[a..b]`.
fn slice_range<T>(s: &[T], a: usize, b: usize) -> (r: &[T])
    requires
        a <= b <= s@.len(),
    ensures
        r@ == s@.subrange(a as int, b as int),
{
    let (_, rest) = s.split_at(a);
    let (mid, _) = rest.split_at(b - a);
    assert(mid@ =~= s@.subrange(a as int, b as int));
    mid
}

} // verus!
