//! Indices that name a series of a simulation, or of one simulation among several.
use vstd::prelude::*;

use crate::formats::devc::DeviceIdx;

verus! {

/// Two-dimensional data of a simulation, named by the device it comes from.
#[derive(Debug, Clone, Copy, PartialEq, Eq)]
pub enum SimulationData2D<'a> {
    Device(&'a str),
}

/// A time series of a simulation.
#[derive(Debug, Clone, Copy, PartialEq, Eq, Hash)]
pub enum TimeSeriesIdx {
    /// The readings of a device.
    Device(DeviceIdx),
}

/// The slice series at this position of a simulation.
#[derive(Debug, Clone, Copy, PartialEq, Eq, Hash)]
pub struct SliceSeriesIdx(pub usize);

/// The series `1` of the simulation at position `0` among several.
#[derive(Debug, Clone, Copy, PartialEq, Eq, Hash)]
pub struct SimulationIdx<T>(pub usize, pub T);

} // verus!
