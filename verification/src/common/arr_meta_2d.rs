//! Statistics of a series over time: the time range together with the value statistics.
use vstd::prelude::*;

use super::arr_meta::ArrayStats;
use super::range::RangeIncl;

verus! {

/// The time range of a series together with the statistics of its values.
#[derive(Debug, Clone, Copy, PartialEq, Eq)]
pub struct ArrayStats2D<Time, Num, NumDivisible = Num> {
    pub time_range: RangeIncl<Time>,
    pub stats: ArrayStats<Num, NumDivisible>,
}

impl<T, N, M> ArrayStats2D<T, N, M> {
    pub fn new(time_range: RangeIncl<T>, stats: ArrayStats<N, M>) -> (r: Self)
        ensures
            r.time_range == time_range,
            r.stats == stats,
    {
        Self { time_range, stats }
    }
}

} // verus!
