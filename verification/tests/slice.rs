use fds_tbx::formats::s3d::{read_s3d_header, S3D};
use fds_tbx::formats::read_ext::{IoError, ReadValErr};
use fds_tbx::formats::slice::{ParseErr, Slice};
use fds_tbx::geom::{Dim3D, Vec2, Vec3};

fn record(out: &mut Vec<u8>, payload: &[u8]) {
    out.extend_from_slice(&(payload.len() as u32).to_le_bytes());
    out.extend_from_slice(payload);
    out.extend_from_slice(&(payload.len() as u32).to_le_bytes());
}

fn header(quantity: &str, short: &str, units: &str, raw_bounds: [i32; 6]) -> Vec<u8> {
    let mut out = Vec::new();
    record(&mut out, format!("{:<30}", quantity).as_bytes());
    record(&mut out, format!("{:<30}", short).as_bytes());
    record(&mut out, format!("{:<30}", units).as_bytes());
    let mut b = Vec::new();
    for v in raw_bounds {
        b.extend_from_slice(&v.to_le_bytes());
    }
    record(&mut out, &b);
    out
}

fn frame(out: &mut Vec<u8>, time: f32, values: &[f32]) {
    out.extend_from_slice(&time.to_le_bytes());
    out.extend_from_slice(&4u32.to_le_bytes());
    let mut payload = Vec::new();
    for v in values {
        payload.extend_from_slice(&v.to_le_bytes());
    }
    record(out, &payload);
}

#[test]
fn parses_example() {
    let data = header("SOOT OPTICAL DENSITY", "OD_C0.9H0.1", "1/m", [0, 33, 0, 33, 43, 43]);
    let slice = Slice::from_reader(&data[..]).unwrap();

    assert_eq!(slice.info.quantity, "SOOT OPTICAL DENSITY");
    assert_eq!(slice.info.short_name, "OD_C0.9H0.1");
    assert_eq!(slice.info.units, "1/m");

    assert_eq!(slice.info.bounds.min, Vec3::new(0, 0, 43));
    assert_eq!(slice.info.bounds.max, Vec3::new(34, 34, 44));

    assert_eq!(slice.info.flat_dim, Dim3D::Z);
}

#[test]
fn slice_info_dimensions() {
    let data = header("Q", "S", "U", [2, 2, 0, 3, 0, 1]);
    let slice = Slice::from_reader(&data[..]).unwrap();
    assert_eq!(slice.info.flat_dim, Dim3D::X);
    assert_eq!(slice.info.dim_i(), Dim3D::Y);
    assert_eq!(slice.info.dim_j(), Dim3D::Z);
    assert_eq!(slice.info.dim_i_len(), 4);
    assert_eq!(slice.info.dim_j_len(), 2);
    assert_eq!(slice.info.area(), Vec2::new(4, 2));
}

#[test]
fn slice_reads_frames() {
    let mut data = header("TEMPERATURE", "temp", "C", [0, 1, 0, 0, 0, 1]);
    frame(&mut data, 0.5, &[1.0, 2.0, 3.0, 4.0]);
    frame(&mut data, 1.5, &[5.0, 6.0, 7.0, 8.0]);
    let slice = Slice::from_reader(&data[..]).unwrap();
    assert_eq!(slice.info.flat_dim, Dim3D::Y);
    assert_eq!(slice.data.steps, 2);
    assert_eq!(slice.data.dim_i, 2);
    assert_eq!(slice.data.dim_j, 2);
    assert_eq!(slice.data.name, "temp");
    assert_eq!(slice.data.unit, "C");
    let times: Vec<f32> = slice.data.time_in_seconds.iter().map(|b| f32::from_bits(*b)).collect();
    assert_eq!(times, vec![0.5, 1.5]);
    let values: Vec<f32> = slice.data.values.iter().map(|b| f32::from_bits(*b)).collect();
    // Every frame is written into the first time step, so the first step holds the last
    // frame and the others stay zero.
    assert_eq!(values, vec![5.0, 6.0, 7.0, 8.0, 0.0, 0.0, 0.0, 0.0]);
}

#[test]
fn slice_bad_frame_size() {
    let mut data = header("T", "t", "C", [0, 1, 0, 0, 0, 1]);
    frame(&mut data, 0.5, &[1.0, 2.0, 3.0]);
    match Slice::from_reader(&data[..]) {
        Err(ParseErr::BadFrameSize { read, expected }) => {
            assert_eq!(read, 12);
            assert_eq!(expected, 16);
        }
        r => panic!("unexpected {:?}", r.map(|s| s.data.steps)),
    }
}

#[test]
fn slice_truncated_frame() {
    let mut data = header("T", "t", "C", [0, 1, 0, 0, 0, 1]);
    frame(&mut data, 0.5, &[1.0, 2.0, 3.0, 4.0]);
    data.truncate(data.len() - 2);
    assert!(matches!(Slice::from_reader(&data[..]), Err(ParseErr::IoErr(IoError::UnexpectedEof))));
}

#[test]
fn slice_no_flat_dimension() {
    let data = header("T", "t", "C", [0, 1, 0, 1, 0, 1]);
    assert!(matches!(Slice::from_reader(&data[..]), Err(ParseErr::BadBoundsSize)));
}

#[test]
fn slice_bad_bounds_record() {
    let mut data = Vec::new();
    record(&mut data, b"T");
    record(&mut data, b"t");
    record(&mut data, b"C");
    record(&mut data, &[0u8; 20]);
    match Slice::from_reader(&data[..]) {
        Err(ParseErr::BadMagicNumber(ReadValErr::Mismatch { read, expected })) => {
            assert_eq!(read, 20);
            assert_eq!(expected, 24);
        }
        _ => panic!("expected a bad record length"),
    }
}

#[test]
fn slice_bad_string() {
    assert!(matches!(Slice::from_reader(&[1u8, 0, 0][..]), Err(ParseErr::BadString(_))));
}

#[test]
fn s3d_header_check() {
    let mut bytes: Vec<u8> = Vec::new();
    for _ in 0..4 {
        bytes.extend_from_slice(&4u32.to_le_bytes());
    }
    for v in [2i32, 3, 4] {
        bytes.extend_from_slice(&v.to_le_bytes());
        bytes.extend_from_slice(&4u32.to_le_bytes());
    }
    match read_s3d_header(&bytes) {
        Some(Ok(size)) => assert_eq!((size.x, size.y, size.z), (3, 4, 5)),
        _ => panic!("a good header"),
    }
    let short = &bytes[..26];
    assert!(matches!(read_s3d_header(short), Some(Err(ParseErr::IoErr(IoError::UnexpectedEof)))));
    assert!(S3D::from_read(short).is_err());
    let mut bad = bytes.clone();
    bad[4] = 5;
    assert!(matches!(
        read_s3d_header(&bad),
        Some(Err(ParseErr::BadMagicNumber(ReadValErr::Mismatch { read: 5, expected: 4 })))
    ));
    let mut overflow = bytes.clone();
    overflow[16..20].copy_from_slice(&i32::MAX.to_le_bytes());
    assert!(read_s3d_header(&overflow).is_none());
}
