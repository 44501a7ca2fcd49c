use fds_tbx::common::arr_meta::ArrayStats;
use fds_tbx::common::range::RangeIncl;
use fds_tbx::common::series::{Series, SeriesView, TimeSeries, TimeSeriesFrame, TimeSeriesView};

fn stats(min: i32, max: i32) -> ArrayStats<i32> {
    ArrayStats { range: RangeIncl::new(min, max), mean: 0, variance: 0, std_dev: 0 }
}

fn series() -> TimeSeries<i32, i32> {
    let times = Series::new(vec![0, 10, 20], vec![3], stats(0, 20));
    let values = Series::new((1..=12).collect(), vec![3, 2, 2], stats(1, 12));
    TimeSeries::new("T".to_string(), "C".to_string(), times, values)
}

#[test]
fn series_frames() {
    let ts = series();
    assert_eq!(ts.len(), 3);
    assert!(!ts.is_empty());
    let v = ts.view();
    assert_eq!((v.unit, v.name), ("C", "T"));
    let f = v.view_frame(1).unwrap();
    assert_eq!(f.time_in_seconds, 10);
    assert_eq!(f.values.data, &[5, 6, 7, 8]);
    assert_eq!(f.values.shape, &[2, 2]);
    assert_eq!(f.values.stats, stats(1, 12));
    assert!(v.view_frame(3).is_none());
    let last = v.frame_panic(2);
    assert_eq!(last.values.iter(), vec![9, 10, 11, 12]);
    assert_eq!(ts.iter(), vec![(0, 1), (10, 2), (20, 3)]);
    assert_eq!(ts.values.iter().len(), 12);
}

#[test]
fn series_windows() {
    let times = Series::new(vec![0, 1, 2, 3], vec![4], stats(0, 3));
    let values = Series::new(vec![5, 6, 7, 8], vec![4], stats(5, 8));
    let ts = TimeSeries::new("x".to_string(), "m".to_string(), times, values);
    let v = ts.view();
    let w = v.iter_windows(3);
    assert_eq!(w.len(), 2);
    assert_eq!(w[1], (&[1, 2, 3][..], &[6, 7, 8][..]));
    assert!(v.iter_windows(5).is_empty());
    assert_eq!(v.iter(), vec![(0, 5), (1, 6), (2, 7), (3, 8)]);
    let again = TimeSeriesView::new(v.time_in_seconds, v.values, v.unit, v.name);
    assert_eq!(again.iter_windows(4).len(), 1);
    let sv = SeriesView::new(&[1, 2][..], &[2][..], stats(1, 2));
    let frame = TimeSeriesFrame::new(7, sv, "u", "n");
    assert_eq!(frame.values.iter(), vec![1, 2]);
}

#[test]
fn series_with_empty_axis() {
    let times = Series::new(vec![0, 1], vec![2], stats(0, 1));
    let values: Series<i32> = Series::new(vec![], vec![2, 0, 1000], stats(0, 0));
    let ts = TimeSeries::new("e".to_string(), "u".to_string(), times, values);
    let f = ts.view().view_frame(1).unwrap();
    assert!(f.values.data.is_empty());
    assert_eq!(f.values.shape, &[0, 1000]);
}
