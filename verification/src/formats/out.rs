//! Pieces of the `.out` log that FDS writes while it runs.
use vstd::prelude::*;

use crate::geom::Vec3;

verus! {

/// A value together with the cell where it occurs.
#[derive(Debug, Clone, Copy, PartialEq, Eq)]
pub struct PositionedValue<T> {
    pub pos: Vec3<u32>,
    pub value: T,
}

/// The major version of FDS that wrote a file.
#[derive(Debug, Clone, Copy, PartialEq, Eq)]
pub enum FdsMajorVersion {
    Fds5,
    Fds6,
}

} // verus!
