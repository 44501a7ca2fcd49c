use fds_tbx::common::arr_meta::{div_count, isqrt, ArrayStats};
use fds_tbx::common::arr_meta_2d::ArrayStats2D;
use fds_tbx::common::range::RangeIncl;
use fds_tbx::formats::arr_meta::{ArrayStats as FlatStats, Range};

fn trunc_div(a: i128, c: usize) -> i128 {
    a / c as i128
}

fn sqrt_floor(v: i128) -> i128 {
    isqrt(v)
}

#[test]
fn stats_of_values() {
    let s = ArrayStats::new(&[2, 4, 4, 4, 5, 5, 7, 9], trunc_div, trunc_div, sqrt_floor).unwrap();
    assert_eq!(s.range, RangeIncl::new(2, 9));
    assert_eq!(s.mean, 5);
    assert_eq!(s.variance, 4);
    assert_eq!(s.std_dev, 2);
    assert!(ArrayStats::new(&[], trunc_div, trunc_div, sqrt_floor).is_none());
}

#[test]
fn stats_of_bytes() {
    let s = ArrayStats::new_u8(&[1, 2, 3, 4]).unwrap();
    assert_eq!(s.range, RangeIncl::new(1, 4));
    assert_eq!(s.mean, 2);
    assert_eq!(s.variance, 3);
    assert_eq!(s.std_dev, 1);
    assert!(ArrayStats::new_u8(&[]).is_none());
}

#[test]
fn stats_mean_within_range() {
    let s = ArrayStats::new_u8(&[200, 255, 0, 13]).unwrap();
    assert!(s.range.min as i128 <= s.mean && s.mean <= s.range.max as i128);
}

#[test]
fn stats_bounds_of_several() {
    let a = ArrayStats::new(&[1, 5], trunc_div, trunc_div, sqrt_floor).unwrap();
    let b = ArrayStats::new(&[-3, 2], trunc_div, trunc_div, sqrt_floor).unwrap();
    assert_eq!(ArrayStats::bounds(&[a, b]), Some(RangeIncl::new(-3, 5)));
    assert_eq!(ArrayStats::bounds(&[]), None);
    let st: ArrayStats<i32, i64> = ArrayStats { range: RangeIncl::new(1, 2), mean: 1, variance: 0, std_dev: 0 };
    let t = ArrayStats2D::new(RangeIncl::new(0, 10), st);
    assert_eq!(t.time_range, RangeIncl::new(0, 10));
    assert_eq!(t.stats, st);
}

#[test]
fn stats_integer_helpers() {
    assert_eq!(isqrt(0), 0);
    assert_eq!(isqrt(15), 3);
    assert_eq!(isqrt(16), 4);
    assert_eq!(isqrt(-5), 0);
    assert_eq!(div_count(-7, 2), -3);
    assert_eq!(div_count(7, 2), 3);
}

#[test]
fn flat_stats() {
    let s = FlatStats::new(&[3, -1, 4], trunc_div, sqrt_floor).unwrap();
    assert_eq!((s.min, s.max), (-1, 4));
    assert_eq!(s.mean, 2);
    let u = FlatStats::new_u8(&[10, 20]).unwrap();
    assert_eq!((u.min, u.max, u.mean), (10, 20, 15));
    assert_eq!(FlatStats::bounds(&[s]), Some(Range::new(-1, 4)));
    let r = Range::new(0, 8);
    assert_eq!(r.width(), 8);
    assert_eq!(r.map(4), 0);
}
