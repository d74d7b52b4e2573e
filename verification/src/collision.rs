//! Collision detection in two phases: first every pair of solid actors
//! that share a tile is found, then the pairs are told apart by the kinds
//! of the actors involved.

use crate::position::Position;
use crate::rigid_body::{BodyKind, RigidBody};
use vstd::prelude::*;

verus! {

/// Two solid actors that share a tile.
#[derive(Debug, Copy, Clone, PartialEq, Eq, Hash, Structural)]
pub struct CollisionEvent {
    pub collider: RigidBody,
    pub collided: RigidBody,
}

impl CollisionEvent {
    pub fn new(collider: RigidBody, collided: RigidBody) -> (event: Self)
        ensures
            event == (CollisionEvent { collider, collided }),
    {
        CollisionEvent { collider, collided }
    }
}

/// A collision between an actor of one given kind, the collider, and an
/// actor of another given kind.
#[derive(Debug, Copy, Clone, PartialEq, Eq, Hash, Structural)]
pub struct DiscreteCollisionEvent(pub RigidBody, pub RigidBody);

/// What a collision of the head means for the game.
#[derive(Debug, Copy, Clone, PartialEq, Eq, Hash, Structural)]
pub enum CollisionKind {
    /// The head reached food: the snake grows.
    HeadVsApple,
    /// The head ran into an obstacle: the game is over.
    HeadVsObstacle,
    /// The head ran into a fragment of its own snake: the game is over.
    HeadVsSelf,
}

/// Whether two positions lie on the same tile. The layer is not looked at.
pub open spec fn same_tile(a: Position, b: Position) -> bool {
    a.0.x == b.0.x && a.0.y == b.0.y
}

/// Whether two positions lie on the same tile.
#[verifier::when_used_as_spec(same_tile)]
pub fn on_same_tile(a: Position, b: Position) -> (same: bool)
    ensures
        same == same_tile(a, b),
{
    a.0.x == b.0.x && a.0.y == b.0.y
}

/// The collisions of the body at index `i` with the bodies behind it, up
/// to index `n`, in the order of those bodies.
pub open spec fn collisions_of(bodies: Seq<RigidBody>, i: int, n: int) -> Seq<CollisionEvent>
    decreases n,
{
    if n <= i + 1 || n <= 0 {
        Seq::empty()
    } else {
        let before = collisions_of(bodies, i, n - 1);
        if same_tile(bodies[i].position, bodies[n - 1].position) {
            before.push(CollisionEvent { collider: bodies[i], collided: bodies[n - 1] })
        } else {
            before
        }
    }
}

/// The collisions of the first `m` bodies, each with all bodies behind it,
/// in the order of the colliders.
pub open spec fn collisions_below(bodies: Seq<RigidBody>, m: int) -> Seq<CollisionEvent>
    decreases m,
{
    if m <= 0 {
        Seq::empty()
    } else {
        collisions_below(bodies, m - 1) + collisions_of(bodies, m - 1, bodies.len() as int)
    }
}

/// All collisions among `bodies`: one event for every two bodies that
/// share a tile, the one that stands earlier in `bodies` as the collider.
/// The events are ordered by collider and then by the other body.
pub open spec fn collisions(bodies: Seq<RigidBody>) -> Seq<CollisionEvent> {
    collisions_below(bodies, bodies.len() as int)
}

/// Every collision of one body is between that body and a later one on
/// its tile, and every such pair is among the collisions.
pub proof fn lemma_collisions_of(bodies: Seq<RigidBody>, i: int, n: int)
    requires
        0 <= i,
        n <= bodies.len(),
    ensures
        forall|k: int|
            0 <= k < collisions_of(bodies, i, n).len() ==> exists|j: int|
                i < j < n && same_tile(bodies[i].position, bodies[j].position)
                    && #[trigger] collisions_of(bodies, i, n)[k] == (CollisionEvent {
                    collider: bodies[i],
                    collided: bodies[j],
                }),
        forall|j: int|
            i < j < n && same_tile(bodies[i].position, #[trigger] bodies[j].position)
                ==> collisions_of(bodies, i, n).contains(
                CollisionEvent { collider: bodies[i], collided: bodies[j] },
            ),
    decreases n,
{
    if n <= i + 1 || n <= 0 {
    } else {
        lemma_collisions_of(bodies, i, n - 1);
        let before = collisions_of(bodies, i, n - 1);
        let all = collisions_of(bodies, i, n);
        assert forall|k: int| 0 <= k < all.len() implies exists|j: int|
            i < j < n && same_tile(bodies[i].position, bodies[j].position) && #[trigger] all[k] == (
            CollisionEvent { collider: bodies[i], collided: bodies[j] }) by {
            if k < before.len() {
                assert(all[k] == before[k]);
                let j = choose|j: int|
                    i < j < n - 1 && same_tile(bodies[i].position, bodies[j].position) && before[k]
                        == (CollisionEvent { collider: bodies[i], collided: bodies[j] });
                assert(i < j < n);
            } else {
                assert(all[k] == (CollisionEvent { collider: bodies[i], collided: bodies[n - 1] }));
            }
        }
        assert forall|j: int|
            i < j < n && same_tile(
                bodies[i].position,
                #[trigger] bodies[j].position,
            ) implies all.contains(CollisionEvent { collider: bodies[i], collided: bodies[j] }) by {
            let event = CollisionEvent { collider: bodies[i], collided: bodies[j] };
            if j < n - 1 {
                assert(before.contains(event));
                let k = choose|k: int| 0 <= k < before.len() && before[k] == event;
                assert(all[k] == event);
            } else {
                assert(all[all.len() - 1] == event);
            }
        }
    }
}

/// Soundness and completeness of the first phase: every event is between
/// two different bodies on one tile, the earlier one as the collider; and
/// every two bodies on one tile give an event.
pub proof fn lemma_collisions(bodies: Seq<RigidBody>)
    ensures
        forall|k: int|
            0 <= k < collisions(bodies).len() ==> exists|i: int, j: int|
                0 <= i < j < bodies.len() && same_tile(bodies[i].position, bodies[j].position)
                    && #[trigger] collisions(bodies)[k] == (CollisionEvent {
                    collider: bodies[i],
                    collided: bodies[j],
                }),
        forall|i: int, j: int|
            0 <= i < j < bodies.len() && same_tile(
                #[trigger] bodies[i].position,
                #[trigger] bodies[j].position,
            ) ==> collisions(bodies).contains(
                CollisionEvent { collider: bodies[i], collided: bodies[j] },
            ),
{
    lemma_collisions_below(bodies, bodies.len() as int);
}

proof fn lemma_collisions_below(bodies: Seq<RigidBody>, m: int)
    requires
        0 <= m <= bodies.len(),
    ensures
        forall|k: int|
            0 <= k < collisions_below(bodies, m).len() ==> exists|i: int, j: int|
                0 <= i < j < bodies.len() && i < m && same_tile(
                    bodies[i].position,
                    bodies[j].position,
                ) && #[trigger] collisions_below(bodies, m)[k] == (CollisionEvent {
                    collider: bodies[i],
                    collided: bodies[j],
                }),
        forall|i: int, j: int|
            0 <= i < j < bodies.len() && i < m && same_tile(
                #[trigger] bodies[i].position,
                #[trigger] bodies[j].position,
            ) ==> collisions_below(bodies, m).contains(
                CollisionEvent { collider: bodies[i], collided: bodies[j] },
            ),
    decreases m,
{
    if m > 0 {
        lemma_collisions_below(bodies, m - 1);
        lemma_collisions_of(bodies, m - 1, bodies.len() as int);
        let before = collisions_below(bodies, m - 1);
        let row = collisions_of(bodies, m - 1, bodies.len() as int);
        let all = collisions_below(bodies, m);
        assert(all == before + row);
        assert forall|k: int| 0 <= k < all.len() implies exists|i: int, j: int|
            0 <= i < j < bodies.len() && i < m && same_tile(bodies[i].position, bodies[j].position)
                && #[trigger] all[k] == (CollisionEvent {
                collider: bodies[i],
                collided: bodies[j],
            }) by {
            if k < before.len() {
                assert(all[k] == before[k]);
                let (i, j) = choose|i: int, j: int|
                    0 <= i < j < bodies.len() && i < m - 1 && same_tile(
                        bodies[i].position,
                        bodies[j].position,
                    ) && before[k] == (CollisionEvent { collider: bodies[i], collided: bodies[j] });
                assert(0 <= i < j < bodies.len() && i < m);
            } else {
                assert(all[k] == row[k - before.len()]);
                let j = choose|j: int|
                    m - 1 < j < bodies.len() && same_tile(
                        bodies[m - 1].position,
                        (#[trigger] bodies[j]).position,
                    ) && row[k - before.len()] == (CollisionEvent {
                        collider: bodies[m - 1],
                        collided: bodies[j],
                    });
                assert(0 <= m - 1 < j < bodies.len());
            }
        }
        assert forall|i: int, j: int|
            0 <= i < j < bodies.len() && i < m && same_tile(
                #[trigger] bodies[i].position,
                #[trigger] bodies[j].position,
            ) implies all.contains(CollisionEvent { collider: bodies[i], collided: bodies[j] }) by {
            let event = CollisionEvent { collider: bodies[i], collided: bodies[j] };
            if i < m - 1 {
                assert(before.contains(event));
                let k = choose|k: int| 0 <= k < before.len() && before[k] == event;
                assert(all[k] == event);
            } else {
                assert(row.contains(event));
                let k = choose|k: int| 0 <= k < row.len() && row[k] == event;
                assert(all[before.len() + k] == event);
            }
        }
    }
}

/// The first phase: finds every two solid actors that share a tile.
pub fn detect_collision(bodies: &[RigidBody]) -> (events: Vec<CollisionEvent>)
    ensures
        events@ == collisions(bodies@),
{
    let count: usize = bodies.len();
    let mut events: Vec<CollisionEvent> = Vec::new();
    let mut i: usize = 0;
    while i < count
        invariant
            count == bodies@.len(),
            i <= count,
            events@ == collisions_below(bodies@, i as int),
        decreases count - i,
    {
        let ghost base = events@;
        let mut j: usize = i + 1;
        while j < count
            invariant
                count == bodies@.len(),
                i < count,
                i + 1 <= j <= count,
                events@ == base + collisions_of(bodies@, i as int, j as int),
            decreases count - j,
        {
            if on_same_tile(bodies[i].position, bodies[j].position) {
                events.push(CollisionEvent::new(bodies[i], bodies[j]));
            }
            j = j + 1;
            proof {
                assert(events@ =~= base + collisions_of(bodies@, i as int, j as int));
            }
        }
        i = i + 1;
    }
    events
}

/// The event between a collider of kind `collider` and an actor of kind
/// `collided` that `event` stands for, if it stands for one: the event
/// itself, or the event with its two actors swapped.
pub open spec fn oriented(event: CollisionEvent, collider: BodyKind, collided: BodyKind) -> Option<
    DiscreteCollisionEvent,
> {
    if event.collider.kind == collider && event.collided.kind == collided {
        Some(DiscreteCollisionEvent(event.collider, event.collided))
    } else if event.collided.kind == collider && event.collider.kind == collided {
        Some(DiscreteCollisionEvent(event.collided, event.collider))
    } else {
        None
    }
}

/// The collisions among `events` between a collider of kind `collider` and
/// an actor of kind `collided`, in the order of `events`.
pub open spec fn discrete_collisions(
    events: Seq<CollisionEvent>,
    collider: BodyKind,
    collided: BodyKind,
) -> Seq<DiscreteCollisionEvent> {
    events.filter_map(|event: CollisionEvent| oriented(event, collider, collided))
}

/// The second phase: keeps the collisions between an actor of kind
/// `collider` and an actor of kind `collided`, and turns each so that the
/// collider comes first.
pub fn detect_discrete_collision(
    events: &[CollisionEvent],
    collider: BodyKind,
    collided: BodyKind,
) -> (found: Vec<DiscreteCollisionEvent>)
    ensures
        found@ == discrete_collisions(events@, collider, collided),
{
    let count: usize = events.len();
    let mut found: Vec<DiscreteCollisionEvent> = Vec::new();
    let ghost pick = |event: CollisionEvent| oriented(event, collider, collided);
    let mut i: usize = 0;
    proof {
        assert(events@.take(0) =~= Seq::<CollisionEvent>::empty());
    }
    while i < count
        invariant
            count == events@.len(),
            i <= count,
            pick == (|event: CollisionEvent| oriented(event, collider, collided)),
            found@ == events@.take(i as int).filter_map(pick),
        decreases count - i,
    {
        let event = events[i];
        proof {
            let prefix = events@.take(i as int + 1);
            assert(prefix.drop_last() =~= events@.take(i as int));
            assert(prefix.last() == event);
        }
        if event.collider.kind == collider && event.collided.kind == collided {
            found.push(DiscreteCollisionEvent(event.collider, event.collided));
        } else if event.collided.kind == collider && event.collider.kind == collided {
            found.push(DiscreteCollisionEvent(event.collided, event.collider));
        }
        i = i + 1;
        proof {
            assert(found@ =~= events@.take(i as int).filter_map(pick));
        }
    }
    proof {
        assert(events@.take(count as int) =~= events@);
    }
    found
}

impl CollisionKind {
    /// What it means that a collider of kind `collider` met an actor of
    /// kind `collided`, if the collider is the head of the snake and the
    /// other is not.
    pub open spec fn spec_of(collider: BodyKind, collided: BodyKind) -> Option<CollisionKind> {
        match (collider, collided) {
            (BodyKind::SnakeHead, BodyKind::Apple) => Some(CollisionKind::HeadVsApple),
            (BodyKind::SnakeHead, BodyKind::Obstacle) => Some(CollisionKind::HeadVsObstacle),
            (BodyKind::SnakeHead, BodyKind::SnakeFragment) => Some(CollisionKind::HeadVsSelf),
            _ => None,
        }
    }

    /// Whether a collision of this kind ends the game: every collision of
    /// the head does but the one with food.
    pub open spec fn spec_is_fatal(self) -> bool {
        self != CollisionKind::HeadVsApple
    }

    #[verifier::when_used_as_spec(spec_of)]
    pub fn of(collider: BodyKind, collided: BodyKind) -> (kind: Option<CollisionKind>)
        ensures
            kind == CollisionKind::spec_of(collider, collided),
    {
        match (collider, collided) {
            (BodyKind::SnakeHead, BodyKind::Apple) => Some(CollisionKind::HeadVsApple),
            (BodyKind::SnakeHead, BodyKind::Obstacle) => Some(CollisionKind::HeadVsObstacle),
            (BodyKind::SnakeHead, BodyKind::SnakeFragment) => Some(CollisionKind::HeadVsSelf),
            _ => None,
        }
    }

    #[verifier::when_used_as_spec(spec_is_fatal)]
    pub fn is_fatal(self) -> (fatal: bool)
        ensures
            fatal == self.spec_is_fatal(),
    {
        match self {
            CollisionKind::HeadVsApple => false,
            _ => true,
        }
    }
}

/// A collision of the head of the snake, with what it means for the game.
#[derive(Debug, Copy, Clone, PartialEq, Eq, Hash, Structural)]
pub struct HeadCollision {
    pub kind: CollisionKind,
    /// The head.
    pub head: RigidBody,
    /// What the head ran into.
    pub other: RigidBody,
}

/// The collision of the head that `event` stands for, if it stands for
/// one, whichever of its two actors the head is.
pub open spec fn classified(event: CollisionEvent) -> Option<HeadCollision> {
    match CollisionKind::of(event.collider.kind, event.collided.kind) {
        Some(kind) => Some(HeadCollision { kind, head: event.collider, other: event.collided }),
        None => match CollisionKind::of(event.collided.kind, event.collider.kind) {
            Some(kind) => Some(HeadCollision { kind, head: event.collided, other: event.collider }),
            None => None,
        },
    }
}

/// The collisions of the head among `events`, in the order of `events`.
pub open spec fn head_collisions(events: Seq<CollisionEvent>) -> Seq<HeadCollision> {
    events.filter_map(|event: CollisionEvent| classified(event))
}

/// Whether one of `hits` is a collision with food.
pub open spec fn feeds(hits: Seq<HeadCollision>) -> bool {
    exists|k: int| 0 <= k < hits.len() && (#[trigger] hits[k]).kind == CollisionKind::HeadVsApple
}

/// Whether one of `hits` ends the game.
pub open spec fn ends_game(hits: Seq<HeadCollision>) -> bool {
    exists|k: int| 0 <= k < hits.len() && (#[trigger] hits[k]).kind.is_fatal()
}

/// What stands for a collision of the head among `events` is among the
/// collisions of the head.
proof fn lemma_classified_is_kept(events: Seq<CollisionEvent>, e: int)
    requires
        0 <= e < events.len(),
        classified(events[e]) is Some,
    ensures
        head_collisions(events).contains(classified(events[e])->0),
    decreases events.len(),
{
    let pick = |event: CollisionEvent| classified(event);
    let all = events.filter_map(pick);
    let rest = events.drop_last();
    if e == events.len() - 1 {
        assert(all[all.len() - 1] == classified(events[e])->0);
    } else {
        lemma_classified_is_kept(rest, e);
        let k = choose|k: int|
            0 <= k < head_collisions(rest).len() && head_collisions(rest)[k] == classified(
                events[e],
            )->0;
        assert(all[k] == classified(events[e])->0);
    }
}

/// Soundness of the detection of the collisions of the head: every
/// collision found is between a head and a different body on its tile that
/// is food, an obstacle or a fragment.
pub proof fn lemma_head_collision_sound(bodies: Seq<RigidBody>, k: int)
    requires
        0 <= k < head_collisions(collisions(bodies)).len(),
    ensures
        exists|i: int, j: int|
            #![trigger bodies[i], bodies[j]]
            {
                &&& 0 <= i < bodies.len()
                &&& 0 <= j < bodies.len()
                &&& i != j
                &&& same_tile(bodies[i].position, bodies[j].position)
                &&& CollisionKind::of(bodies[i].kind, bodies[j].kind) is Some
                &&& head_collisions(collisions(bodies))[k] == (HeadCollision {
                    kind: CollisionKind::of(bodies[i].kind, bodies[j].kind)->0,
                    head: bodies[i],
                    other: bodies[j],
                })
            },
{
    let events = collisions(bodies);
    let hits = head_collisions(events);
    let pick = |event: CollisionEvent| classified(event);
    lemma_collisions(bodies);
    assert(hits.contains(hits[k]));
    events.lemma_filter_map_contains(pick, hits[k]);
    let event = choose|event: CollisionEvent| #[trigger]
        events.contains(event) && pick(event) == Some(hits[k]);
    let e = choose|e: int| 0 <= e < events.len() && events[e] == event;
    let (a, b) = choose|a: int, b: int|
        0 <= a < b < bodies.len() && same_tile(bodies[a].position, bodies[b].position) && events[e]
            == (CollisionEvent { collider: bodies[a], collided: bodies[b] });
    if CollisionKind::of(bodies[a].kind, bodies[b].kind) is Some {
        assert(same_tile(bodies[a].position, bodies[b].position) && hits[k] == (HeadCollision {
            kind: CollisionKind::of(bodies[a].kind, bodies[b].kind)->0,
            head: bodies[a],
            other: bodies[b],
        }));
    } else {
        assert(same_tile(bodies[b].position, bodies[a].position) && hits[k] == (HeadCollision {
            kind: CollisionKind::of(bodies[b].kind, bodies[a].kind)->0,
            head: bodies[b],
            other: bodies[a],
        }));
    }
}

/// Completeness of the detection of the collisions of the head: a head
/// and a different body on its tile that is food, an obstacle or a
/// fragment give a collision.
pub proof fn lemma_head_collision_complete(bodies: Seq<RigidBody>, i: int, j: int)
    requires
        0 <= i < bodies.len(),
        0 <= j < bodies.len(),
        i != j,
        same_tile(bodies[i].position, bodies[j].position),
        CollisionKind::of(bodies[i].kind, bodies[j].kind) is Some,
    ensures
        head_collisions(collisions(bodies)).contains(
            HeadCollision {
                kind: CollisionKind::of(bodies[i].kind, bodies[j].kind)->0,
                head: bodies[i],
                other: bodies[j],
            },
        ),
{
    let events = collisions(bodies);
    lemma_collisions(bodies);
    let event = if i < j {
        CollisionEvent { collider: bodies[i], collided: bodies[j] }
    } else {
        CollisionEvent { collider: bodies[j], collided: bodies[i] }
    };
    assert(events.contains(event));
    let e = choose|e: int| 0 <= e < events.len() && events[e] == event;
    lemma_classified_is_kept(events, e);
}

/// Tells what `event` means for the game, if the head is part of it.
pub fn classify(event: &CollisionEvent) -> (collision: Option<HeadCollision>)
    ensures
        collision == classified(*event),
{
    match CollisionKind::of(event.collider.kind, event.collided.kind) {
        Some(kind) => Some(HeadCollision { kind, head: event.collider, other: event.collided }),
        None => match CollisionKind::of(event.collided.kind, event.collider.kind) {
            Some(kind) => Some(HeadCollision { kind, head: event.collided, other: event.collider }),
            None => None,
        },
    }
}

/// The second phase for the game: keeps the collisions of the head and
/// tells what each means.
pub fn detect_head_collision(events: &[CollisionEvent]) -> (found: Vec<HeadCollision>)
    ensures
        found@ == head_collisions(events@),
{
    let count: usize = events.len();
    let mut found: Vec<HeadCollision> = Vec::new();
    let ghost pick = |event: CollisionEvent| classified(event);
    let mut i: usize = 0;
    proof {
        assert(events@.take(0) =~= Seq::<CollisionEvent>::empty());
    }
    while i < count
        invariant
            count == events@.len(),
            i <= count,
            pick == (|event: CollisionEvent| classified(event)),
            found@ == events@.take(i as int).filter_map(pick),
        decreases count - i,
    {
        proof {
            let prefix = events@.take(i as int + 1);
            assert(prefix.drop_last() =~= events@.take(i as int));
            assert(prefix.last() == events@[i as int]);
        }
        match classify(&events[i]) {
            Some(collision) => {
                found.push(collision);
            },
            None => {},
        }
        i = i + 1;
        proof {
            assert(found@ =~= events@.take(i as int).filter_map(pick));
        }
    }
    proof {
        assert(events@.take(count as int) =~= events@);
    }
    found
}

/// Whether the snake has reached food.
pub fn has_eaten(hits: &[HeadCollision]) -> (fed: bool)
    ensures
        fed == feeds(hits@),
{
    let mut i: usize = 0;
    while i < hits.len()
        invariant
            i <= hits@.len(),
            forall|k: int| 0 <= k < i ==> (#[trigger] hits@[k]).kind != CollisionKind::HeadVsApple,
        decreases hits.len() - i,
    {
        if !hits[i].kind.is_fatal() {
            return true;
        }
        i = i + 1;
    }
    false
}

/// Whether the game is over: the head has run into a fragment of its snake
/// or into an obstacle.
pub fn game_over(hits: &[HeadCollision]) -> (over: bool)
    ensures
        over == ends_game(hits@),
{
    let mut i: usize = 0;
    while i < hits.len()
        invariant
            i <= hits@.len(),
            forall|k: int| 0 <= k < i ==> !(#[trigger] hits@[k]).kind.is_fatal(),
        decreases hits.len() - i,
    {
        if hits[i].kind.is_fatal() {
            return true;
        }
        i = i + 1;
    }
    false
}

} // verus!
