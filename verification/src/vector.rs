//! Plain integer vectors used for grid coordinates and unit steps.

use vstd::prelude::*;

verus! {

/// A vector of three signed grid coordinates.
#[derive(Debug, Copy, Clone, PartialEq, Eq, Hash, Structural)]
pub struct IVec3 {
    pub x: i32,
    pub y: i32,
    pub z: i32,
}

impl IVec3 {
    pub fn new(x: i32, y: i32, z: i32) -> (v: Self)
        ensures
            v == (IVec3 { x, y, z }),
    {
        IVec3 { x, y, z }
    }

    /// The first two components.
    pub fn xy(self) -> (v: IVec2)
        ensures
            v == (IVec2 { x: self.x, y: self.y }),
    {
        IVec2 { x: self.x, y: self.y }
    }
}

/// A vector of two signed grid coordinates.
#[derive(Debug, Copy, Clone, PartialEq, Eq, Hash, Structural)]
pub struct IVec2 {
    pub x: i32,
    pub y: i32,
}

impl IVec2 {
    pub fn new(x: i32, y: i32) -> (v: Self)
        ensures
            v == (IVec2 { x, y }),
    {
        IVec2 { x, y }
    }
}

/// The coordinate of a tile: column `x` and row `y`, both counted from zero.
#[derive(Debug, Copy, Clone, PartialEq, Eq, Hash, Structural)]
pub struct UVec2 {
    pub x: u32,
    pub y: u32,
}

impl UVec2 {
    pub fn new(x: u32, y: u32) -> (v: Self)
        ensures
            v == (UVec2 { x, y }),
    {
        UVec2 { x, y }
    }
}

} // verus!
