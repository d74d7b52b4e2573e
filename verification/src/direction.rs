//! The four grid directions and their algebra.

use crate::vector::{IVec2, IVec3};
use vstd::prelude::*;

verus! {

/// One of the four directions a grid actor can face.
#[derive(Debug, Copy, Clone, PartialEq, Eq, Hash, Structural)]
pub enum Direction {
    Up,
    Down,
    Right,
    Left,
}

impl Direction {
    /// The direction pointing the other way.
    pub open spec fn spec_opposite(self) -> Direction {
        match self {
            Direction::Up => Direction::Down,
            Direction::Down => Direction::Up,
            Direction::Right => Direction::Left,
            Direction::Left => Direction::Right,
        }
    }

    /// The next direction of the quarter-turn cycle
    /// `Up -> Left -> Down -> Right -> Up`.
    pub open spec fn spec_clockwise(self) -> Direction {
        match self {
            Direction::Up => Direction::Left,
            Direction::Right => Direction::Up,
            Direction::Down => Direction::Right,
            Direction::Left => Direction::Down,
        }
    }

    /// The previous direction of the quarter-turn cycle: a quarter turn
    /// followed by a half turn.
    pub open spec fn spec_counter_clockwise(self) -> Direction {
        self.spec_clockwise().spec_opposite()
    }

    /// The step of one tile taken when moving in this direction.
    pub open spec fn unit(self) -> IVec3 {
        match self {
            Direction::Up => IVec3 { x: 0, y: 1, z: 0 },
            Direction::Down => IVec3 { x: 0, y: -1i32, z: 0 },
            Direction::Right => IVec3 { x: 1, y: 0, z: 0 },
            Direction::Left => IVec3 { x: -1i32, y: 0, z: 0 },
        }
    }

    /// The change of column that `count` steps in this direction make.
    pub open spec fn run_x(self, count: int) -> int {
        match self {
            Direction::Right => count,
            Direction::Left => -count,
            _ => 0,
        }
    }

    /// The change of row that `count` steps in this direction make.
    pub open spec fn run_y(self, count: int) -> int {
        match self {
            Direction::Up => count,
            Direction::Down => -count,
            _ => 0,
        }
    }

    #[verifier::when_used_as_spec(spec_opposite)]
    pub fn opposite(self) -> (d: Self)
        ensures
            d == self.spec_opposite(),
    {
        match self {
            Direction::Up => Direction::Down,
            Direction::Down => Direction::Up,
            Direction::Right => Direction::Left,
            Direction::Left => Direction::Right,
        }
    }

    #[verifier::when_used_as_spec(spec_clockwise)]
    pub fn clockwise(self) -> (d: Self)
        ensures
            d == self.spec_clockwise(),
    {
        match self {
            Direction::Up => Direction::Left,
            Direction::Right => Direction::Up,
            Direction::Down => Direction::Right,
            Direction::Left => Direction::Down,
        }
    }

    #[verifier::when_used_as_spec(spec_counter_clockwise)]
    pub fn counter_clockwise(self) -> (d: Self)
        ensures
            d == self.spec_counter_clockwise(),
    {
        self.clockwise().opposite()
    }

    /// The unit step of this direction: one tile along one axis, never
    /// across layers.
    pub fn to_ivec3(self) -> (v: IVec3)
        ensures
            v == self.unit(),
    {
        match self {
            Direction::Up => IVec3::new(0, 1, 0),
            Direction::Down => IVec3::new(0, -1, 0),
            Direction::Right => IVec3::new(1, 0, 0),
            Direction::Left => IVec3::new(-1, 0, 0),
        }
    }

    /// The unit step of this direction within the plane of the grid.
    pub fn to_ivec2(self) -> (v: IVec2)
        ensures
            v == (IVec2 { x: self.unit().x, y: self.unit().y }),
    {
        self.to_ivec3().xy()
    }

    /// The angle, in degrees, by which a picture that faces left is turned
    /// to face this direction.
    pub open spec fn spec_to_degrees(self) -> i16 {
        match self {
            Direction::Up => -90i16,
            Direction::Down => 90,
            Direction::Left => 0,
            Direction::Right => 180,
        }
    }

    /// The angle, in degrees, by which a picture that faces left is turned
    /// to face this direction.
    #[verifier::when_used_as_spec(spec_to_degrees)]
    pub fn to_degrees(self) -> (angle: i16)
        ensures
            angle == self.spec_to_degrees(),
    {
        match self {
            Direction::Up => -90,
            Direction::Down => 90,
            Direction::Left => 0,
            Direction::Right => 180,
        }
    }

    /// The name of the direction, as it is shown to a reader.
    pub fn to_string(&self) -> (s: String)
        ensures
            s@ == match *self {
                Direction::Up => "Up"@,
                Direction::Down => "Down"@,
                Direction::Right => "Right"@,
                Direction::Left => "Left"@,
            },
    {
        match self {
            Direction::Up => "Up".to_string(),
            Direction::Down => "Down".to_string(),
            Direction::Right => "Right".to_string(),
            Direction::Left => "Left".to_string(),
        }
    }

    /// Turning around twice gives the direction one started with.
    pub proof fn lemma_opposite_is_involution(d: Direction)
        ensures
            d.opposite().opposite() == d,
            d.opposite() != d,
    {
    }

    /// Four quarter turns give the direction one started with, and fewer
    /// do not.
    pub proof fn lemma_clockwise_has_period_four(d: Direction)
        ensures
            d.clockwise().clockwise().clockwise().clockwise() == d,
            d.clockwise() != d,
            d.clockwise().clockwise() != d,
            d.clockwise().clockwise().clockwise() != d,
    {
    }

    /// A counter-clockwise quarter turn undoes a clockwise one, and the
    /// other way round.
    pub proof fn lemma_counter_clockwise_inverts_clockwise(d: Direction)
        ensures
            d.clockwise().counter_clockwise() == d,
            d.counter_clockwise().clockwise() == d,
    {
    }

}

impl Default for Direction {
    fn default() -> (d: Self)
        ensures
            d == Direction::Up,
    {
        Direction::Up
    }
}

} // verus!
