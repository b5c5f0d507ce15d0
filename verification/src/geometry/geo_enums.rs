use vstd::prelude::*;

use crate::num::Num;

verus! {

/// On which side of a boundary something lies.
#[derive(Clone, Copy, Debug, PartialEq, Eq, Structural)]
pub enum GeoPosition {
    Interior,
    Exterior,
}

/// Which rotations an item may be placed with.
#[derive(Clone, Debug, PartialEq, Eq)]
pub enum RotationRange {
    /// No rotation at all.
    Fixed,
    Continuous,
    /// The allowed angles, in radians.
    Discrete(Vec<Num>),
}

} // verus!
