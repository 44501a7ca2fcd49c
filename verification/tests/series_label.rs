use fds_tbx::series_label::{kept_labels, LabelArea, SeriesLabelPosition, SeriesLabelStyle};

#[test]
fn series_label_defaults_and_setters() {
    let mut s: SeriesLabelStyle<u8, &str> = SeriesLabelStyle::new(0);
    assert_eq!(s.position, SeriesLabelPosition::MiddleRight);
    assert_eq!(s.legend_area_size, 30);
    assert_eq!(s.margin, 10);
    assert!(s.label_font.is_none());
    s.position(SeriesLabelPosition::UpperLeft).margin(-4).legend_area_size(12).border_style(3).background_style(4).label_font("mono");
    assert_eq!(s.position, SeriesLabelPosition::UpperLeft);
    assert_eq!(s.margin, 0);
    assert_eq!(s.legend_area_size, 12);
    assert_eq!((s.border_style, s.background), (3, 4));
    assert_eq!(s.label_font, Some("mono"));
}

#[test]
fn series_label_layout() {
    let mut s: SeriesLabelStyle<u8, &str> = SeriesLabelStyle::new(0);
    s.label_font("mono");
    let (font, area) = s.draw((50, 20), (400, 300));
    assert_eq!(font, Some("mono"));
    assert!(s.label_font.is_none());
    // Box 50 + 30 + 2 * 10 wide and 20 + 2 * 10 high, at the middle right.
    assert_eq!(area, LabelArea { rect: ((295, 130), (395, 170)), text_origin: (335, 140) });
    let lines = vec![((335, 140), (385, 152)), ((335, 152), (385, 165))];
    assert_eq!(s.legend_positions(area, &lines), vec![(305, 146), (305, 158)]);
}

#[test]
fn series_label_corners() {
    let p = SeriesLabelPosition::LowerMiddle;
    assert_eq!(p.layout_label_area((10, 10), (100, 50)), (45, 35));
    assert_eq!(SeriesLabelPosition::Coordinate(-7, 3).layout_label_area((10, 10), (100, 50)), (-7, 3));
    assert_eq!(SeriesLabelPosition::MiddleMiddle.layout_label_area((101, 0), (100, 0)), (0, 0));
}

#[test]
fn series_label_kept() {
    let labels = vec![
        ("a".to_string(), false),
        ("".to_string(), false),
        ("".to_string(), true),
        ("b".to_string(), true),
    ];
    assert_eq!(kept_labels(&labels), vec![0, 2, 3]);
}

#[test]
fn series_label_layout_checks() {
    let mut s: SeriesLabelStyle<u8, &str> = SeriesLabelStyle::new(0);
    assert!(s.can_layout((50, 20), (400, 300)));
    assert!(!s.can_layout((-1, 20), (400, 300)));
    assert!(!s.can_layout((i32::MAX - 10, 20), (400, 300)));
    s.position(SeriesLabelPosition::Coordinate(i32::MAX - 60, 0));
    assert!(!s.can_layout((50, 20), (400, 300)));
    let area = LabelArea { rect: ((0, 0), (10, 10)), text_origin: (0, 0) };
    assert!(s.can_place(area, &vec![((0, 1), (5, 3))]));
    assert!(!s.can_place(area, &vec![((0, i32::MAX), (5, 1))]));
}
