//! Positions of actors on the grid.

use crate::direction::Direction;
use crate::vector::IVec3;
use core::ops::{Add, AddAssign, Sub, SubAssign};
use vstd::prelude::*;
use vstd::std_specs::ops::{AddSpecImpl, SubSpecImpl};

verus! {

/// Where an actor stands: column `x`, row `y` and layer `z`.
///
/// The layer tells stacked occupants of one tile apart when they are drawn.
/// It plays no part in occupancy or collision.
#[derive(Debug, Copy, Clone, PartialEq, Eq, Hash, Structural)]
pub struct Position(pub IVec3);

/// Whether `value` can be held in an `i32`.
pub open spec fn fits_i32(value: int) -> bool {
    i32::MIN <= value <= i32::MAX
}

impl Position {
    pub fn new(x: i32, y: i32, z: i32) -> (p: Self)
        ensures
            p == Position(IVec3 { x, y, z }),
    {
        Position(IVec3 { x, y, z })
    }

    /// Whether moving by `delta` stays within the coordinate type.
    pub open spec fn can_add(self, delta: IVec3) -> bool {
        &&& fits_i32(self.0.x + delta.x)
        &&& fits_i32(self.0.y + delta.y)
        &&& fits_i32(self.0.z + delta.z)
    }

    /// Whether moving back by `delta` stays within the coordinate type.
    pub open spec fn can_sub(self, delta: IVec3) -> bool {
        &&& fits_i32(self.0.x - delta.x)
        &&& fits_i32(self.0.y - delta.y)
        &&& fits_i32(self.0.z - delta.z)
    }

    /// The position reached by moving by `delta`, component by component.
    pub open spec fn plus(self, delta: IVec3) -> Position {
        Position(
            IVec3 {
                x: (self.0.x + delta.x) as i32,
                y: (self.0.y + delta.y) as i32,
                z: (self.0.z + delta.z) as i32,
            },
        )
    }

    /// The position reached by moving back by `delta`, component by
    /// component.
    pub open spec fn minus(self, delta: IVec3) -> Position {
        Position(
            IVec3 {
                x: (self.0.x - delta.x) as i32,
                y: (self.0.y - delta.y) as i32,
                z: (self.0.z - delta.z) as i32,
            },
        )
    }

    /// The position one tile further in `direction`.
    pub open spec fn stepped(self, direction: Direction) -> Position {
        self.plus(direction.unit())
    }

    /// Moves one tile in `direction`.
    pub fn step(self, direction: Direction) -> (p: Self)
        requires
            self.can_add(direction.unit()),
        ensures
            p == self.stepped(direction),
            p.0.x == self.0.x + direction.unit().x,
            p.0.y == self.0.y + direction.unit().y,
            p.0.z == self.0.z,
    {
        self + direction.to_ivec3()
    }
}

impl Add<IVec3> for Position {
    type Output = Position;

    fn add(self, rhs: IVec3) -> (p: Position) {
        Position(IVec3 { x: self.0.x + rhs.x, y: self.0.y + rhs.y, z: self.0.z + rhs.z })
    }
}

impl AddSpecImpl<IVec3> for Position {
    open spec fn obeys_add_spec() -> bool {
        true
    }

    open spec fn add_req(self, rhs: IVec3) -> bool {
        self.can_add(rhs)
    }

    open spec fn add_spec(self, rhs: IVec3) -> Position {
        self.plus(rhs)
    }
}

impl Sub<IVec3> for Position {
    type Output = Position;

    fn sub(self, rhs: IVec3) -> (p: Position) {
        Position(IVec3 { x: self.0.x - rhs.x, y: self.0.y - rhs.y, z: self.0.z - rhs.z })
    }
}

impl SubSpecImpl<IVec3> for Position {
    open spec fn obeys_sub_spec() -> bool {
        true
    }

    open spec fn sub_req(self, rhs: IVec3) -> bool {
        self.can_sub(rhs)
    }

    open spec fn sub_spec(self, rhs: IVec3) -> Position {
        self.minus(rhs)
    }
}

impl AddAssign<IVec3> for Position {
    fn add_assign(&mut self, rhs: IVec3)
        requires
            old(self).can_add(rhs),
        ensures
            *final(self) == old(self).plus(rhs),
    {
        *self = *self + rhs;
    }
}

impl SubAssign<IVec3> for Position {
    fn sub_assign(&mut self, rhs: IVec3)
        requires
            old(self).can_sub(rhs),
        ensures
            *final(self) == old(self).minus(rhs),
    {
        *self = *self - rhs;
    }
}

impl Default for Position {
    fn default() -> (p: Self)
        ensures
            p == Position(IVec3 { x: 0, y: 0, z: 0 }),
    {
        Position(IVec3 { x: 0, y: 0, z: 0 })
    }
}

} // verus!
