use fds_tbx::common::range::RangeIncl;
use fds_tbx::geom::{abs_diff, Bounds3, Dim3D, Dim3DSigned, Surfaces3, Vec2, Vec3};

#[test]
fn range_expand_and_contains() {
    let r = RangeIncl::new(2, 5);
    let e = r.expand(9);
    assert_eq!((e.min, e.max), (2, 9));
    assert!(e.contains(9));
    assert!(e.contains(2));
    assert!(!e.contains(10));
    let e = r.expand(-1);
    assert_eq!((e.min, e.max), (-1, 5));
}

#[test]
fn range_hull() {
    let a = RangeIncl::new(0, 3);
    let b = RangeIncl::new(-2, 1);
    let h = a.max(b);
    assert_eq!((h.min, h.max), (-2, 3));
    assert_eq!(b.max(a), h);
}

#[test]
fn range_from_values() {
    assert_eq!(RangeIncl::from_iter_val(&[]), None);
    assert_eq!(RangeIncl::from_iter_val(&[4, -3, 7, 0]), Some(RangeIncl::new(-3, 7)));
    assert_eq!(
        RangeIncl::from_iter_range(&[RangeIncl::new(1, 2), RangeIncl::new(-5, 0)]),
        Some(RangeIncl::new(-5, 2))
    );
    assert_eq!(RangeIncl::from_iter_range(&[]), None);
}

#[test]
fn range_width_center_map() {
    let r = RangeIncl::new(-4, 6);
    assert_eq!(r.width(), 10);
    assert_eq!(r.center(), 1);
    assert_eq!(r.map(6), 1);
    assert_eq!(RangeIncl::new(0, 10).map(25), 2);
}

#[test]
fn range_zoom_and_pan() {
    let mut r = RangeIncl::new(2, 4);
    r.zoom(3, 2);
    assert_eq!((r.min, r.max), (1, 5));
    r.zoom(3, -1);
    assert_eq!((r.min, r.max), (1, 5));
    r.pan(10);
    assert_eq!((r.min, r.max), (11, 15));
    r.pan(-10);
    assert_eq!((r.min, r.max), (1, 5));
}

#[test]
fn range_into_ranges() {
    assert_eq!(RangeIncl::new(1, 4).into_range(), 1..4);
    assert_eq!(RangeIncl::new(1, 4).into_range_inclusive(), 1..=4);
}

#[test]
fn geom_vectors() {
    let v = Vec3::new(1, 2, 3);
    assert_eq!(v.iter(), vec![1, 2, 3]);
    assert_eq!(v.get(Dim3D::Y), 2);
    assert_eq!(v.enumerate(), vec![(Dim3D::X, 1), (Dim3D::Y, 2), (Dim3D::Z, 3)]);
    assert_eq!(Vec2::new(5, 6), Vec2 { x: 5, y: 6 });
    assert_eq!(Dim3D::iter(), vec![Dim3D::X, Dim3D::Y, Dim3D::Z]);
}

#[test]
fn geom_signed_dims() {
    let all = Dim3DSigned::iter();
    assert_eq!(all.len(), 6);
    let codes: Vec<u8> = all.iter().map(|d| d.as_u8()).collect();
    let mut sorted = codes.clone();
    sorted.sort();
    sorted.dedup();
    assert_eq!(sorted.len(), 6);
    assert_eq!(Dim3DSigned::new(true, Dim3D::X).as_u8(), all[0].as_u8());
}

#[test]
fn geom_bounds() {
    let b = Bounds3::from_fds_notation(0, 4, -1, 1, 3, 3);
    assert_eq!(b.min, Vec3::new(0, -1, 3));
    assert_eq!(b.max, Vec3::new(4, 1, 3));
    assert_eq!(b.area(), Vec3::new(4, 2, 0));
    assert_eq!(Bounds3::from_fds_notation_tuple((0, 4, -1, 1, 3, 3)), b);
    assert_eq!(abs_diff(-3, 4), 7);
    assert_eq!(abs_diff(i32::MIN, i32::MAX), u32::MAX);
    let s = Surfaces3::new(1, 2, 3, 4, 5, 6);
    assert_eq!(s.pos_z, 6);
}

#[test]
fn box_points_in_order() {
    let b = Bounds3::from_fds_notation(0, 1, 5, 6, -1, -1);
    let pts: Vec<(i32, i32, i32)> = b.iter().into_iter().map(|p| (p.x, p.y, p.z)).collect();
    assert_eq!(
        pts,
        vec![(0, 5, -1), (0, 6, -1), (1, 5, -1), (1, 6, -1)]
    );
    let single = Bounds3::from_fds_notation(3, 3, 3, 3, 3, 3);
    assert_eq!(single.iter().len(), 1);
    let empty = Bounds3::from_fds_notation(2, 1, 0, 4, 0, 4);
    assert!(empty.iter().is_empty());
    let edge = Bounds3::from_fds_notation(i32::MAX - 1, i32::MAX, 0, 0, i32::MIN, i32::MIN);
    assert_eq!(edge.iter().len(), 2);
    let cube = Bounds3::from_fds_notation(-1, 1, -1, 1, -1, 1);
    assert_eq!(cube.iter().len(), 27);
}
