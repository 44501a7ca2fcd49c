//! 3D smoke files (`.s3d`): a header of the grid size, followed by frames. The frame reader is
//! a stub that reads nothing and always succeeds, so reading frames never comes to an end:
//! reading a file only returns where its header is malformed.
use vstd::prelude::*;

use crate::formats::read_ext::{i32_le, u32_le, ByteReader, IoError, ReadValErr};
use crate::formats::slice::ParseErr;
use crate::geom::Vec3;

verus! {

/// A frame of a 3D smoke file; nothing of it is read yet.
#[derive(Debug, Clone, Copy, PartialEq, Eq, Default)]
pub struct SliceFrame {}

/// A 3D smoke file: the number of grid points along each axis, and the frames.
#[derive(Debug)]
pub struct S3D {
    pub size: Vec3<i32>,
    pub min_values: Vec3<i32>,
    pub max_values: Vec3<i32>,
    pub frames: Vec<SliceFrame>,
}

/// The error of the length word at `p`, which must read 4, if it has one.
pub open spec fn length_word(s: Seq<u8>, p: int) -> Option<ParseErr> {
    if s.len() < p + 4 {
        Some(ParseErr::BadMagicNumber(ReadValErr::Io(IoError::UnexpectedEof)))
    } else if u32_le(s.skip(p)) != 4 {
        Some(
            ParseErr::BadMagicNumber(
                ReadValErr::Mismatch { read: u32_le(s.skip(p)) as u32, expected: 4 },
            ),
        )
    } else {
        None
    }
}

/// What reading the count at `p` gives: `None` where adding one to it overflows.
pub open spec fn count_at(s: Seq<u8>, p: int) -> Option<Result<i32, ParseErr>> {
    if s.len() < p + 4 {
        Some(Err(ParseErr::IoErr(IoError::UnexpectedEof)))
    } else if i32_le(s.skip(p)) == i32::MAX {
        None
    } else {
        Some(Ok((i32_le(s.skip(p)) + 1) as i32))
    }
}

/// What reading the header of a 3D smoke file gives: four length words, then three counts,
/// each followed by a length word; `None` where a count overflows.
pub open spec fn s3d_header(s: Seq<u8>) -> Option<Result<Vec3<i32>, ParseErr>> {
    if length_word(s, 0) is Some {
        Some(Err(length_word(s, 0)->0))
    } else if length_word(s, 4) is Some {
        Some(Err(length_word(s, 4)->0))
    } else if length_word(s, 8) is Some {
        Some(Err(length_word(s, 8)->0))
    } else if length_word(s, 12) is Some {
        Some(Err(length_word(s, 12)->0))
    } else {
        match count_at(s, 16) {
            None => None,
            Some(Err(e)) => Some(Err(e)),
            Some(Ok(x)) => if length_word(s, 20) is Some {
                Some(Err(length_word(s, 20)->0))
            } else {
                match count_at(s, 24) {
                    None => None,
                    Some(Err(e)) => Some(Err(e)),
                    Some(Ok(y)) => if length_word(s, 28) is Some {
                        Some(Err(length_word(s, 28)->0))
                    } else {
                        match count_at(s, 32) {
                            None => None,
                            Some(Err(e)) => Some(Err(e)),
                            Some(Ok(z)) => if length_word(s, 36) is Some {
                                Some(Err(length_word(s, 36)->0))
                            } else {
                                Some(Ok(Vec3 { x, y, z }))
                            },
                        }
                    },
                }
            },
        }
    }
}

/// Reads the length word at the reader's position.
fn read_length_word(rdr: &mut ByteReader) -> (r: Result<(), ParseErr>)
    requires
        old(rdr).wf(),
    ensures
        final(rdr).wf(),
        final(rdr).bytes() == old(rdr).bytes(),
        match length_word(old(rdr).bytes(), old(rdr).position() as int) {
            Some(e) => r == Err::<(), ParseErr>(e),
            None => r is Ok && final(rdr).position() == old(rdr).position() + 4,
        },
{
    proof {
        assert(old(rdr).rest() =~= old(rdr).bytes().skip(old(rdr).position() as int));
    }
    match rdr.read_fixed_u32(4) {
        Ok(()) => Ok(()),
        Err(e) => Err(ParseErr::BadMagicNumber(e)),
    }
}

/// Reads a count at the reader's position, plus one.
fn read_count(rdr: &mut ByteReader) -> (r: Result<i32, ParseErr>)
    requires
        old(rdr).wf(),
        count_at(old(rdr).bytes(), old(rdr).position() as int) is Some,
    ensures
        final(rdr).wf(),
        final(rdr).bytes() == old(rdr).bytes(),
        Some(r) == count_at(old(rdr).bytes(), old(rdr).position() as int),
        r is Ok ==> final(rdr).position() == old(rdr).position() + 4,
{
    match rdr.read_i32_le() {
        Ok(v) => {
            if v == i32::MAX {
                return vstd::pervasive::unreached();
            }
            Ok(v + 1)
        },
        Err(e) => Err(ParseErr::IoErr(e)),
    }
}

/// Reads a count at the reader's position, plus one; `None` where adding one overflows.
fn read_count_checked(rdr: &mut ByteReader) -> (r: Option<Result<i32, ParseErr>>)
    requires
        old(rdr).wf(),
    ensures
        final(rdr).wf(),
        final(rdr).bytes() == old(rdr).bytes(),
        r == count_at(old(rdr).bytes(), old(rdr).position() as int),
        r matches Some(Ok(_)) ==> final(rdr).position() == old(rdr).position() + 4,
{
    match rdr.read_i32_le() {
        Ok(v) => if v == i32::MAX {
            None
        } else {
            Some(Ok(v + 1))
        },
        Err(e) => Some(Err(ParseErr::IoErr(e))),
    }
}

/// Reads the header of a 3D smoke file: the grid size, the header's error, or `None` where a
/// count overflows. [`S3D::from_read`] returns exactly where this gives an error.
pub fn read_s3d_header(data: &[u8]) -> (r: Option<Result<Vec3<i32>, ParseErr>>)
    ensures
        r == s3d_header(data@),
{
    let mut rdr = ByteReader::new(data);
    if let Err(e) = read_length_word(&mut rdr) {
        return Some(Err(e));
    }
    if let Err(e) = read_length_word(&mut rdr) {
        return Some(Err(e));
    }
    if let Err(e) = read_length_word(&mut rdr) {
        return Some(Err(e));
    }
    if let Err(e) = read_length_word(&mut rdr) {
        return Some(Err(e));
    }
    let x = match read_count_checked(&mut rdr) {
        None => return None,
        Some(Err(e)) => return Some(Err(e)),
        Some(Ok(v)) => v,
    };
    if let Err(e) = read_length_word(&mut rdr) {
        return Some(Err(e));
    }
    let y = match read_count_checked(&mut rdr) {
        None => return None,
        Some(Err(e)) => return Some(Err(e)),
        Some(Ok(v)) => v,
    };
    if let Err(e) = read_length_word(&mut rdr) {
        return Some(Err(e));
    }
    let z = match read_count_checked(&mut rdr) {
        None => return None,
        Some(Err(e)) => return Some(Err(e)),
        Some(Ok(v)) => v,
    };
    if let Err(e) = read_length_word(&mut rdr) {
        return Some(Err(e));
    }
    Some(Ok(Vec3 { x, y, z }))
}

impl SliceFrame {
    /// Reads a frame of a 3D smoke file; nothing is read, and the frame is always found.
    pub fn from_read(_rdr: &ByteReader, _obj: &S3D) -> (r: Result<SliceFrame, ParseErr>)
        ensures
            r == Ok::<SliceFrame, ParseErr>(SliceFrame {}),
    {
        Ok(SliceFrame {})
    }
}

impl S3D {
    /// Reads a 3D smoke file. It returns only where the header is malformed, with the header's
    /// error: on a well-formed header reading frames never ends, and a count of `i32::MAX`
    /// overflows.
    pub fn from_read(data: &[u8]) -> (r: Result<S3D, ParseErr>)
        requires
            s3d_header(data@) matches Some(Err(_)),
        ensures
            r matches Err(e) && Some(Err::<Vec3<i32>, ParseErr>(e)) == s3d_header(data@),
    {
        let mut rdr = ByteReader::new(data);
        read_length_word(&mut rdr)?;
        read_length_word(&mut rdr)?;
        read_length_word(&mut rdr)?;
        read_length_word(&mut rdr)?;
        let _x = read_count(&mut rdr)?;
        read_length_word(&mut rdr)?;
        let _y = read_count(&mut rdr)?;
        read_length_word(&mut rdr)?;
        let _z = read_count(&mut rdr)?;
        read_length_word(&mut rdr)?;
        vstd::pervasive::unreached()
    }
}

} // verus!
