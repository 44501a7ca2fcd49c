use fds_tbx::formats::read_ext::{ByteReader, IoError, ReadExt, ReadStrErr, ReadValErr};

fn as_reader(bytes: &[u8]) -> ByteReader {
    ByteReader::new(bytes)
}

#[test]
fn skip() {
    let mut rdr = as_reader(&[1, 2, 3]);
    assert_eq!(rdr.read_u8().unwrap(), 1);
    rdr.skip(1).expect("Failed to skip");
    assert_eq!(rdr.read_u8().unwrap(), 3);
}

#[test]
fn read_vlq_u32_0() {
    let mut rdr = as_reader(&[0b00000000]);
    assert_eq!(rdr.read_vlq_u32().unwrap(), 0);
}

#[test]
fn read_vlq_u32_one_block() {
    let mut rdr = as_reader(&[0b01000001]);
    assert_eq!(rdr.read_vlq_u32().unwrap(), 65);
}

#[test]
fn read_vlq_u32_two_blocks() {
    let mut rdr = as_reader(&[0b10000010, 0b00000001]);
    assert_eq!(rdr.read_vlq_u32().unwrap(), 130);
}

#[test]
fn read_vlq_u32_five_blocks_drops_high_bits() {
    // groups 0x7f at weights 1, 128, 128^2, 128^3 and 0x7f at 128^4: all 35 bits set, 32 kept
    let mut rdr = as_reader(&[0xff, 0xff, 0xff, 0xff, 0x7f]);
    assert_eq!(rdr.read_vlq_u32().unwrap(), u32::MAX);
    assert_eq!(rdr.remaining(), 0);
}

#[test]
fn read_vlq_u32_unterminated() {
    let mut rdr = as_reader(&[0x80, 0x80]);
    assert_eq!(rdr.read_vlq_u32(), Err(IoError::UnexpectedEof));
}

#[test]
fn skip_past_end() {
    let mut rdr = as_reader(&[1, 2, 3]);
    assert_eq!(rdr.skip(4), Err(IoError::UnexpectedEof));
    assert_eq!(rdr.remaining(), 0);
}

#[test]
fn read_le_integers() {
    let mut rdr = as_reader(&[0x01, 0x02, 0x03, 0x04, 0xff, 0xff, 0xff, 0xff]);
    assert_eq!(rdr.read_u32_le().unwrap(), 0x0403_0201);
    assert_eq!(rdr.read_i32_le().unwrap(), -1);
    assert_eq!(rdr.read_u32_le(), Err(IoError::UnexpectedEof));
}

#[test]
fn read_fixed_u32_mismatch() {
    let mut rdr = as_reader(&[24, 0, 0, 0, 7, 0, 0, 0]);
    assert_eq!(rdr.read_fixed_u32(24), Ok(()));
    assert_eq!(rdr.read_fixed_u32(24), Err(ReadValErr::Mismatch { read: 7, expected: 24 }));
}

#[test]
fn read_string_and_fortran_string() {
    let mut rdr = as_reader(&[3, 0, 0, 0, b'a', b'b', b'c']);
    assert_eq!(rdr.read_string().unwrap(), "abc");

    let mut rdr = as_reader(&[4, 0, 0, 0, b' ', b'h', b'i', b' ', 4, 0, 0, 0]);
    assert_eq!(rdr.read_string_fortran().unwrap(), " hi ");

    let mut rdr = as_reader(&[4, 0, 0, 0, b' ', b'h', b'i', b' ', 4, 0, 0, 0]);
    assert_eq!(rdr.read_fortran_string().unwrap(), "hi");
}

#[test]
fn read_string_errors() {
    let mut rdr = as_reader(&[1, 0]);
    assert!(matches!(rdr.read_string(), Err(ReadStrErr::Io(IoError::UnexpectedEof))));

    let mut rdr = as_reader(&[5, 0, 0, 0, b'a']);
    assert!(matches!(rdr.read_string(), Err(ReadStrErr::IoBuf(IoError::UnexpectedEof, 5))));

    let mut rdr = as_reader(&[1, 0, 0, 0, 0xff]);
    assert!(matches!(rdr.read_string(), Err(ReadStrErr::Utf8(_))));

    let mut rdr = as_reader(&[1, 0, 0, 0, b'a', 2, 0, 0, 0]);
    assert!(matches!(
        rdr.read_string_fortran(),
        Err(ReadStrErr::MismatchedPostfixLength(1, 2))
    ));
}
