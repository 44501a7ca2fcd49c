//! How reading the frames of a slice file can fail or end.
use vstd::prelude::*;

use crate::formats::read_ext::IoError;

verus! {

/// How reading the frames of a slice file can fail, or that it found no further frame.
#[derive(Debug, Clone, Copy, PartialEq, Eq)]
pub enum SliceFrameErr {
    /// A block is malformed.
    BadBlock,
    /// A block has this wrong size.
    BadBlockSize(usize),
    /// The data ended inside a block.
    IoErr(IoError),
    /// No further frame starts here.
    NoBlocks,
}

/// The error of reading frames from a failed read.
pub fn frames_io_error(err: IoError) -> (r: SliceFrameErr)
    ensures
        r == SliceFrameErr::IoErr(err),
{
    SliceFrameErr::IoErr(err)
}

} // verus!
