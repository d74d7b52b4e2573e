//! Bushes: obstacles that stand on the grid and never move.

use crate::entity::Entity;
use crate::position::Position;
use crate::rigid_body::{BodyKind, RigidBody};
use vstd::prelude::*;

verus! {

/// The layer on which bushes stand.
pub const BUSH_LAYER: i32 = 1;

/// A bush.
#[derive(Debug, Copy, Clone, PartialEq, Eq, Hash, Structural)]
pub struct Bush {
    /// The identity under which the bush is known to the tile map.
    pub entity: Entity,
    /// Where the bush stands.
    pub position: Position,
}

impl Bush {
    /// The bush as a solid actor.
    pub open spec fn body(self) -> RigidBody {
        RigidBody { entity: self.entity, position: self.position, kind: BodyKind::Obstacle }
    }

    /// The bush as a solid actor.
    pub fn rigid_body(&self) -> (body: RigidBody)
        ensures
            body == self.body(),
    {
        RigidBody { entity: self.entity, position: self.position, kind: BodyKind::Obstacle }
    }
}

} // verus!
