//! Where the files of a simulation are read from.
use vstd::prelude::*;

verus! {

/// The file system of the operating system.
#[derive(Debug, Clone, Copy, PartialEq, Eq, Default)]
pub struct OsFs;

} // verus!
