//! Solid actors: what occupies tiles and can be run into.

use crate::entity::Entity;
use crate::position::Position;
use vstd::prelude::*;

verus! {

/// What kind of solid actor a [`RigidBody`] is.
#[derive(Debug, Copy, Clone, PartialEq, Eq, Hash, Structural)]
pub enum BodyKind {
    /// The head of the snake.
    SnakeHead,
    /// A body fragment or the tail of the snake.
    SnakeFragment,
    /// Food.
    Apple,
    /// Something that never moves and must not be run into.
    Obstacle,
}

/// A solid actor: it occupies its tile and can be run into.
#[derive(Debug, Copy, Clone, PartialEq, Eq, Hash, Structural)]
pub struct RigidBody {
    pub entity: Entity,
    pub position: Position,
    pub kind: BodyKind,
}

impl RigidBody {
    /// Whether the body is known as `entity` and stands in column `x` and
    /// row `y`.
    pub open spec fn is_at(self, entity: Entity, x: int, y: int) -> bool {
        self.entity == entity && self.position.0.x == x && self.position.0.y == y
    }

    /// The body moved to `position`.
    pub open spec fn moved_to(self, position: Position) -> RigidBody {
        RigidBody { position, ..self }
    }
}

/// Whether one of `bodies` is known as `entity` and stands in column `x`
/// and row `y`.
pub open spec fn stands(bodies: Seq<RigidBody>, entity: Entity, x: int, y: int) -> bool {
    exists|i: int| 0 <= i < bodies.len() && (#[trigger] bodies[i]).is_at(entity, x, y)
}

/// Whether one of `bodies` is known as `entity`.
pub open spec fn knows(bodies: Seq<RigidBody>, entity: Entity) -> bool {
    exists|i: int| 0 <= i < bodies.len() && (#[trigger] bodies[i]).entity == entity
}

/// Whether no two of `bodies` share an identity.
pub open spec fn ids_distinct(bodies: Seq<RigidBody>) -> bool {
    forall|i: int, j: int|
        0 <= i < j < bodies.len() ==> (#[trigger] bodies[i]).entity != (#[trigger] bodies[j]).entity
}

/// After a new body was put among the others, a body stands where it
/// stood before, and the new one where it was put; and bodies whose
/// identities were distinct, and differ from the new one, still have
/// distinct identities.
pub proof fn lemma_stands_insert(
    bodies: Seq<RigidBody>,
    i: int,
    body: RigidBody,
    entity: Entity,
    x: int,
    y: int,
)
    requires
        0 <= i <= bodies.len(),
    ensures
        stands(bodies.insert(i, body), entity, x, y) <==> stands(bodies, entity, x, y)
            || body.is_at(entity, x, y),
        knows(bodies.insert(i, body), entity) <==> knows(bodies, entity) || body.entity == entity,
        ids_distinct(bodies) && !knows(bodies, body.entity) ==> ids_distinct(
            bodies.insert(i, body),
        ),
{
    let more = bodies.insert(i, body);
    if stands(more, entity, x, y) {
        let k = choose|k: int| 0 <= k < more.len() && (#[trigger] more[k]).is_at(entity, x, y);
        if k < i {
            assert(bodies[k].is_at(entity, x, y));
        } else if k > i {
            assert(bodies[k - 1].is_at(entity, x, y));
        }
    }
    if stands(bodies, entity, x, y) {
        let k = choose|k: int| 0 <= k < bodies.len() && (#[trigger] bodies[k]).is_at(entity, x, y);
        if k < i {
            assert(more[k].is_at(entity, x, y));
        } else {
            assert(more[k + 1].is_at(entity, x, y));
        }
    }
    if body.is_at(entity, x, y) {
        assert(more[i].is_at(entity, x, y));
    }
    if knows(more, entity) {
        let k = choose|k: int| 0 <= k < more.len() && (#[trigger] more[k]).entity == entity;
        if k < i {
            assert(bodies[k].entity == entity);
        } else if k > i {
            assert(bodies[k - 1].entity == entity);
        }
    }
    if knows(bodies, entity) {
        let k = choose|k: int| 0 <= k < bodies.len() && (#[trigger] bodies[k]).entity == entity;
        if k < i {
            assert(more[k].entity == entity);
        } else {
            assert(more[k + 1].entity == entity);
        }
    }
    if body.entity == entity {
        assert(more[i].entity == entity);
    }
    if ids_distinct(bodies) && !knows(bodies, body.entity) {
        assert forall|a: int, b: int| 0 <= a < b < more.len() implies (#[trigger] more[a]).entity
            != (#[trigger] more[b]).entity by {
            let a0 = if a < i { a } else { a - 1 };
            let b0 = if b < i { b } else { b - 1 };
            if a == i {
                assert(bodies[b0].entity != body.entity);
            } else if b == i {
                assert(bodies[a0].entity != body.entity);
            } else {
                assert(bodies[a0].entity != bodies[b0].entity);
            }
        }
    }
}

/// After one of several bodies with distinct identities has moved, it
/// stands where it moved to and nowhere else, and every other body stands
/// where it stood.
pub proof fn lemma_stands_update(
    bodies: Seq<RigidBody>,
    i: int,
    position: Position,
    entity: Entity,
    x: int,
    y: int,
)
    requires
        ids_distinct(bodies),
        0 <= i < bodies.len(),
    ensures
        stands(bodies.update(i, bodies[i].moved_to(position)), entity, x, y) <==> (stands(
            bodies,
            entity,
            x,
            y,
        ) && entity != bodies[i].entity) || bodies[i].moved_to(position).is_at(entity, x, y),
        ids_distinct(bodies.update(i, bodies[i].moved_to(position))),
        knows(bodies.update(i, bodies[i].moved_to(position)), entity) <==> knows(bodies, entity),
{
    let after = bodies.update(i, bodies[i].moved_to(position));
    if stands(after, entity, x, y) {
        let k = choose|k: int| 0 <= k < after.len() && (#[trigger] after[k]).is_at(entity, x, y);
        if k != i {
            assert(bodies[k].is_at(entity, x, y));
            assert(bodies[k].entity != bodies[i].entity);
        }
    }
    if stands(bodies, entity, x, y) && entity != bodies[i].entity {
        let k = choose|k: int| 0 <= k < bodies.len() && (#[trigger] bodies[k]).is_at(entity, x, y);
        assert(after[k].is_at(entity, x, y));
    }
    if bodies[i].moved_to(position).is_at(entity, x, y) {
        assert(after[i].is_at(entity, x, y));
    }
    assert forall|a: int, b: int| 0 <= a < b < after.len() implies (#[trigger] after[a]).entity != (
    #[trigger] after[b]).entity by {
        assert(bodies[a].entity != bodies[b].entity);
    }
    if knows(after, entity) {
        let k = choose|k: int| 0 <= k < after.len() && (#[trigger] after[k]).entity == entity;
        assert(bodies[k].entity == entity);
    }
    if knows(bodies, entity) {
        let k = choose|k: int| 0 <= k < bodies.len() && (#[trigger] bodies[k]).entity == entity;
        assert(after[k].entity == entity);
    }
}

/// After one of several bodies with distinct identities was taken away,
/// every other body stands where it stood, and the one taken away stands
/// nowhere.
pub proof fn lemma_stands_remove(bodies: Seq<RigidBody>, i: int, entity: Entity, x: int, y: int)
    requires
        ids_distinct(bodies),
        0 <= i < bodies.len(),
    ensures
        stands(bodies.remove(i), entity, x, y) <==> stands(bodies, entity, x, y) && entity
            != bodies[i].entity,
        knows(bodies.remove(i), entity) <==> knows(bodies, entity) && entity != bodies[i].entity,
        ids_distinct(bodies.remove(i)),
{
    let after = bodies.remove(i);
    if stands(after, entity, x, y) {
        let k = choose|k: int| 0 <= k < after.len() && (#[trigger] after[k]).is_at(entity, x, y);
        if k < i {
            assert(bodies[k].is_at(entity, x, y));
            assert(bodies[k].entity != bodies[i].entity);
        } else {
            assert(bodies[k + 1].is_at(entity, x, y));
            assert(bodies[i].entity != bodies[k + 1].entity);
        }
    }
    if stands(bodies, entity, x, y) && entity != bodies[i].entity {
        let k = choose|k: int| 0 <= k < bodies.len() && (#[trigger] bodies[k]).is_at(entity, x, y);
        if k < i {
            assert(after[k].is_at(entity, x, y));
        } else {
            assert(after[k - 1].is_at(entity, x, y));
        }
    }
    if knows(after, entity) {
        let k = choose|k: int| 0 <= k < after.len() && (#[trigger] after[k]).entity == entity;
        if k < i {
            assert(bodies[k].entity == entity);
            assert(bodies[k].entity != bodies[i].entity);
        } else {
            assert(bodies[k + 1].entity == entity);
            assert(bodies[i].entity != bodies[k + 1].entity);
        }
    }
    if knows(bodies, entity) && entity != bodies[i].entity {
        let k = choose|k: int| 0 <= k < bodies.len() && (#[trigger] bodies[k]).entity == entity;
        if k < i {
            assert(after[k].entity == entity);
        } else {
            assert(after[k - 1].entity == entity);
        }
    }
    assert forall|a: int, b: int| 0 <= a < b < after.len() implies (#[trigger] after[a]).entity != (
    #[trigger] after[b]).entity by {
        let a0 = if a < i { a } else { a + 1 };
        let b0 = if b < i { b } else { b + 1 };
        assert(bodies[a0].entity != bodies[b0].entity);
    }
}

} // verus!
