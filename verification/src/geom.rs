//! Integer 3-vectors: cell positions in the scene's voxel coordinate frame.

use vstd::prelude::*;

verus! {

/// A cell position. Coordinates are whole voxel units at the finest
/// subdivision level, centred on the scene origin.
#[derive(Clone, Copy, PartialEq, Eq, Structural)]
pub struct IVec3 {
    pub x: i32,
    pub y: i32,
    pub z: i32,
}

impl IVec3 {
    /// The vector (x, y, z).
    pub fn new(x: i32, y: i32, z: i32) -> (r: IVec3)
        ensures
            r == (IVec3 { x, y, z }),
    {
        IVec3 { x, y, z }
    }
}

} // verus!
