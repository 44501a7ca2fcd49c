//! How reading a frame of a slice file can fail.
use vstd::prelude::*;

use crate::formats::read_ext::IoError;

verus! {

/// How reading a frame of a slice file can fail.
#[derive(Debug, Clone, Copy, PartialEq, Eq)]
pub enum SliceFrameErr {
    /// A block is malformed.
    BadBlock,
    /// A block has this wrong size.
    BadBlockSize(usize),
    /// The data ended inside a block.
    IoErr(IoError),
}

/// The error of reading a frame from a failed read.
pub fn frame_io_error(err: IoError) -> (r: SliceFrameErr)
    ensures
        r == SliceFrameErr::IoErr(err),
{
    SliceFrameErr::IoErr(err)
}

} // verus!
