//! The snake: an ordered list of fragments, from head to tail, that moves
//! one tile per step and grows by one fragment per apple.

use crate::direction::Direction;
use crate::entity::Entity;
use crate::error::ConfigurationError;
use crate::number_generator::NumberGenerator;
use crate::position::{fits_i32, Position};
use crate::rigid_body::{BodyKind, RigidBody};
use crate::tile_map::{TileMap, TileMapView};
use crate::vector::IVec3;
use vstd::prelude::*;

verus! {

/// The part a fragment plays in its snake.
#[derive(Debug, Copy, Clone, PartialEq, Eq, Hash, Structural)]
pub enum SnakeFragment {
    /// The first fragment, which leads.
    Head,
    /// A fragment between head and tail. It carries a visual seed, which
    /// picks the look of the fragment and has no effect on the simulation.
    Body(u16),
    /// The last fragment.
    Tail,
}

/// A turn that a player asks of a snake.
#[derive(Debug, Copy, Clone, PartialEq, Eq, Hash, Structural)]
pub enum SnakeAction {
    MoveUp,
    MoveDown,
    MoveLeft,
    MoveRight,
}

impl SnakeAction {
    /// The direction that the action asks for.
    pub open spec fn spec_direction(self) -> Direction {
        match self {
            SnakeAction::MoveUp => Direction::Up,
            SnakeAction::MoveDown => Direction::Down,
            SnakeAction::MoveLeft => Direction::Left,
            SnakeAction::MoveRight => Direction::Right,
        }
    }

    #[verifier::when_used_as_spec(spec_direction)]
    pub fn direction(self) -> (d: Direction)
        ensures
            d == self.spec_direction(),
    {
        match self {
            SnakeAction::MoveUp => Direction::Up,
            SnakeAction::MoveDown => Direction::Down,
            SnakeAction::MoveLeft => Direction::Left,
            SnakeAction::MoveRight => Direction::Right,
        }
    }
}

/// Something that happened to a snake during a step.
#[derive(Debug, Copy, Clone, PartialEq, Eq, Hash, Structural)]
pub enum SnakeEvent {
    /// The head ran into the given actor.
    HeadCollide(Entity),
}

/// The direction asked for by the actions that are pressed, if any is.
/// Where several are pressed, up goes before left, left before right and
/// right before down.
pub open spec fn spec_pressed_direction(up: bool, left: bool, right: bool, down: bool) -> Option<
    Direction,
> {
    if up {
        Some(Direction::Up)
    } else if left {
        Some(Direction::Left)
    } else if right {
        Some(Direction::Right)
    } else if down {
        Some(Direction::Down)
    } else {
        None
    }
}

/// The direction asked for by the actions that are pressed.
#[verifier::when_used_as_spec(spec_pressed_direction)]
pub fn pressed_direction(up: bool, left: bool, right: bool, down: bool) -> (direction: Option<
    Direction,
>)
    ensures
        direction == spec_pressed_direction(up, left, right, down),
{
    if up {
        Some(SnakeAction::MoveUp.direction())
    } else if left {
        Some(SnakeAction::MoveLeft.direction())
    } else if right {
        Some(SnakeAction::MoveRight.direction())
    } else if down {
        Some(SnakeAction::MoveDown.direction())
    } else {
        None
    }
}

/// One segment of a snake.
#[derive(Debug, Copy, Clone, PartialEq, Eq, Hash, Structural)]
pub struct Fragment {
    /// The identity under which the fragment is known to the tile map.
    pub entity: Entity,
    /// The part that the fragment plays.
    pub kind: SnakeFragment,
    /// Where the fragment is.
    pub position: Position,
    /// The direction in which the fragment came to where it is.
    pub direction: Direction,
    /// The direction the fragment had before the most recent move, if the
    /// snake has moved since the fragment came to be.
    pub previous_direction: Option<Direction>,
}

/// The picture that shows a fragment.
#[derive(Debug, Copy, Clone, PartialEq, Eq, Hash, Structural)]
pub enum SnakeSprite {
    Head,
    Tail,
    /// A body fragment that goes straight on, with its visual seed.
    Straight(u16),
    /// A body fragment that bends to the right, with its visual seed.
    RightCurved(u16),
    /// A body fragment that bends to the left, with its visual seed.
    LeftCurved(u16),
}

impl Fragment {
    /// The fragment as a solid actor.
    pub open spec fn body(self) -> RigidBody {
        RigidBody {
            entity: self.entity,
            position: self.position,
            kind: if self.kind == SnakeFragment::Head {
                BodyKind::SnakeHead
            } else {
                BodyKind::SnakeFragment
            },
        }
    }

    /// The fragment as a solid actor.
    pub fn rigid_body(&self) -> (body: RigidBody)
        ensures
            body == self.body(),
    {
        RigidBody {
            entity: self.entity,
            position: self.position,
            kind: match self.kind {
                SnakeFragment::Head => BodyKind::SnakeHead,
                _ => BodyKind::SnakeFragment,
            },
        }
    }

    /// The picture that shows the fragment. A body fragment bends to the
    /// right if a clockwise quarter turn of its direction gives the
    /// direction it had before, to the left if a counter-clockwise one
    /// does, and goes straight on otherwise.
    pub open spec fn sprite(self) -> SnakeSprite {
        match self.kind {
            SnakeFragment::Head => SnakeSprite::Head,
            SnakeFragment::Tail => SnakeSprite::Tail,
            SnakeFragment::Body(seed) => if self.previous_direction == Some(
                self.direction.clockwise(),
            ) {
                SnakeSprite::RightCurved(seed)
            } else if self.previous_direction == Some(self.direction.counter_clockwise()) {
                SnakeSprite::LeftCurved(seed)
            } else {
                SnakeSprite::Straight(seed)
            },
        }
    }

    /// The direction that the picture of the fragment faces: head and tail
    /// face their direction, a body fragment still faces the direction it
    /// had before the most recent move.
    pub open spec fn facing(self) -> Direction {
        match self.kind {
            SnakeFragment::Body(_) => match self.previous_direction {
                Some(previous) => previous,
                None => self.direction,
            },
            _ => self.direction,
        }
    }
}

/// Picks the picture for a fragment.
pub fn update_snake_sprite(fragment: &Fragment) -> (sprite: SnakeSprite)
    ensures
        sprite == fragment.sprite(),
{
    match fragment.kind {
        SnakeFragment::Head => SnakeSprite::Head,
        SnakeFragment::Tail => SnakeSprite::Tail,
        SnakeFragment::Body(seed) => match fragment.previous_direction {
            Some(previous) => {
                if fragment.direction.clockwise() == previous {
                    SnakeSprite::RightCurved(seed)
                } else if fragment.direction.counter_clockwise() == previous {
                    SnakeSprite::LeftCurved(seed)
                } else {
                    SnakeSprite::Straight(seed)
                }
            },
            None => SnakeSprite::Straight(seed),
        },
    }
}

/// Picks the direction that the picture of a fragment is turned to.
pub fn update_snake_transform(fragment: &Fragment) -> (direction: Direction)
    ensures
        direction == fragment.facing(),
{
    match fragment.kind {
        SnakeFragment::Head | SnakeFragment::Tail => fragment.direction,
        SnakeFragment::Body(_) => match fragment.previous_direction {
            Some(previous) => {
                if fragment.direction != previous {
                    previous
                } else {
                    fragment.direction
                }
            },
            None => fragment.direction,
        },
    }
}

/// What a [`Snake`] holds, as mathematical values.
#[verifier::ext_equal]
pub struct SnakeView {
    /// The fragments, from head to tail.
    pub fragments: Seq<Fragment>,
    /// The turn asked for since the last move, if any.
    pub next_direction: Option<Direction>,
    /// Position and direction that the tail had before the most recent
    /// move, until a growth uses them up.
    pub last_known_tail: Option<(Position, Direction)>,
}

/// Whether `ahead` is one step from `behind`, in the direction of `ahead`,
/// on the torus of `map`.
pub open spec fn linked(map: TileMapView, ahead: Fragment, behind: Fragment) -> bool {
    map.clamped(behind.position.stepped(ahead.direction)) == ahead.position
}

/// Whether `ahead` is one step from `behind`, in some direction, on the
/// torus of `map`.
pub open spec fn one_step_apart(map: TileMapView, ahead: Position, behind: Position) -> bool {
    exists|direction: Direction| map.clamped(#[trigger] behind.stepped(direction)) == ahead
}

impl SnakeView {
    /// The first fragment.
    pub open spec fn head(self) -> Fragment {
        self.fragments[0]
    }

    /// The last fragment.
    pub open spec fn tail(self) -> Fragment {
        self.fragments[self.fragments.len() - 1]
    }

    /// What holds of every snake: it has a head and a tail, which are two
    /// fragments, with nothing but body fragments between them; and the
    /// turn asked for is not a turn back.
    pub open spec fn wf(self) -> bool {
        &&& self.fragments.len() >= 2
        &&& self.head().kind == SnakeFragment::Head
        &&& self.tail().kind == SnakeFragment::Tail
        &&& forall|i: int|
            0 < i < self.fragments.len() - 1 ==> (#[trigger] self.fragments[i]).kind is Body
        &&& self.next_direction != Some(self.head().direction.opposite())
    }

    /// Whether no two fragments share an identity.
    pub open spec fn distinct(self) -> bool {
        forall|i: int, j: int|
            0 <= i < j < self.fragments.len() ==> (#[trigger] self.fragments[i]).entity != (
            #[trigger] self.fragments[j]).entity
    }

    /// Whether `entity` is the identity of one of the fragments.
    pub open spec fn has(self, entity: Entity) -> bool {
        exists|i: int| 0 <= i < self.fragments.len() && (#[trigger] self.fragments[i]).entity == entity
    }

    /// Whether every fragment is on a tile of `map`.
    pub open spec fn on_grid(self, map: TileMapView) -> bool {
        forall|i: int|
            0 <= i < self.fragments.len() ==> map.covers((#[trigger] self.fragments[i]).position)
    }

    /// Whether every fragment is one step from the fragment behind it, in
    /// the direction it came by.
    pub open spec fn connected(self, map: TileMapView) -> bool {
        forall|i: int|
            0 <= i < self.fragments.len() - 1 ==> linked(
                map,
                #[trigger] self.fragments[i],
                self.fragments[i + 1],
            )
    }

    /// Whether the place remembered for a new tail, if one is, is on the
    /// grid and one step behind the tail.
    pub open spec fn tail_remembered(self, map: TileMapView) -> bool {
        self.last_known_tail matches Some(memory) ==> {
            &&& map.covers(memory.0)
            &&& map.clamped(memory.0.stepped(self.tail().direction)) == self.tail().position
        }
    }

    /// The direction that the head takes at the next move: the turn asked
    /// for, or else the direction it has.
    pub open spec fn resolved_direction(self) -> Direction {
        match self.next_direction {
            Some(direction) => direction,
            None => self.head().direction,
        }
    }

    /// The snake after it was asked to turn to `direction`. A turn back is
    /// not taken up: what was asked for before stays.
    pub open spec fn turned(self, direction: Direction) -> SnakeView {
        if direction != self.head().direction.opposite() {
            SnakeView { next_direction: Some(direction), ..self }
        } else {
            self
        }
    }

    /// The snake after one move: the head steps one tile in the resolved
    /// direction, and every other fragment takes position and direction of
    /// the fragment ahead of it. Every fragment remembers the direction it
    /// had, the snake remembers where its tail was, and the turn asked for
    /// is used up.
    pub open spec fn moved(self) -> SnakeView {
        let direction = self.resolved_direction();
        SnakeView {
            fragments: Seq::new(
                self.fragments.len(),
                |i: int|
                    if i == 0 {
                        Fragment {
                            position: self.fragments[0].position.stepped(direction),
                            direction,
                            previous_direction: Some(self.fragments[0].direction),
                            ..self.fragments[0]
                        }
                    } else {
                        Fragment {
                            position: self.fragments[i - 1].position,
                            direction: self.fragments[i - 1].direction,
                            previous_direction: Some(self.fragments[i].direction),
                            ..self.fragments[i]
                        }
                    },
            ),
            next_direction: None,
            last_known_tail: Some((self.tail().position, self.tail().direction)),
        }
    }

    /// The snake with every fragment wrapped onto the grid of `map`.
    pub open spec fn clamped(self, map: TileMapView) -> SnakeView {
        SnakeView {
            fragments: Seq::new(
                self.fragments.len(),
                |i: int|
                    Fragment { position: map.clamped(self.fragments[i].position), ..self.fragments[i] },
            ),
            ..self
        }
    }

    /// Whether the snake can grow: it remembers where its tail was.
    pub open spec fn can_grow(self) -> bool {
        self.last_known_tail is Some
    }

    /// The snake after it grew, if it can: the tail becomes a body fragment
    /// with the visual seed `seed`, and a new tail, known as `entity`,
    /// follows where the tail was before the most recent move. The memory
    /// of that place is used up. A snake that cannot grow stays as it is.
    pub open spec fn grown(self, entity: Entity, seed: u16) -> SnakeView {
        match self.last_known_tail {
            Some(memory) => SnakeView {
                fragments: self.fragments.update(
                    self.fragments.len() - 1,
                    Fragment { kind: SnakeFragment::Body(seed), ..self.tail() },
                ).push(
                    Fragment {
                        entity,
                        kind: SnakeFragment::Tail,
                        position: memory.0,
                        direction: memory.1,
                        previous_direction: None,
                    },
                ),
                last_known_tail: None,
                ..self
            },
            None => self,
        }
    }

    /// A snake that was just laid out: `count` fragments in a straight
    /// line, the head at `position`, each further fragment one step behind
    /// the one ahead, all facing `direction`, with the identities from
    /// `first_entity` on and the visual seeds `seeds` for the body.
    pub open spec fn laid_out(
        direction: Direction,
        position: Position,
        first_entity: Entity,
        seeds: Seq<u16>,
    ) -> SnakeView {
        let count = seeds.len() + 2;
        let back = direction.opposite();
        SnakeView {
            fragments: Seq::new(
                count,
                |i: int|
                    Fragment {
                        entity: (first_entity + i) as u64,
                        kind: if i == 0 {
                            SnakeFragment::Head
                        } else if i < count - 1 {
                            SnakeFragment::Body(seeds[i - 1])
                        } else {
                            SnakeFragment::Tail
                        },
                        position: Position(
                            IVec3 {
                                x: (position.0.x + back.run_x(i)) as i32,
                                y: (position.0.y + back.run_y(i)) as i32,
                                z: position.0.z,
                            },
                        ),
                        direction,
                        previous_direction: None,
                    },
            ),
            next_direction: None,
            last_known_tail: None,
        }
    }
}

impl SnakeView {
    /// Length is kept by turns and moves, and a growth adds exactly one
    /// fragment where the snake can grow.
    pub proof fn lemma_length(self, direction: Direction, entity: Entity, seed: u16)
        requires
            self.wf(),
        ensures
            self.turned(direction).fragments.len() == self.fragments.len(),
            self.moved().fragments.len() == self.fragments.len(),
            self.grown(entity, seed).fragments.len() == self.fragments.len() + (if self.can_grow() {
                1int
            } else {
                0int
            }),
    {
    }

    /// The no-reverse invariant: a move never turns the head to the
    /// opposite of the direction it had, whatever turns were asked for
    /// since the move before.
    pub proof fn lemma_move_never_reverses(self)
        requires
            self.wf(),
        ensures
            self.moved().wf(),
            self.moved().head().direction != self.head().direction.opposite(),
            self.moved().head().previous_direction == Some(self.head().direction),
    {
    }

    /// A turn keeps the snake well formed, whether it is taken up or not.
    pub proof fn lemma_turn_keeps_wf(self, direction: Direction)
        requires
            self.wf(),
        ensures
            self.turned(direction).wf(),
            self.turned(direction).fragments == self.fragments,
            self.turned(direction).last_known_tail == self.last_known_tail,
    {
    }

    /// A fresh snake on the grid is connected once it is wrapped onto it.
    pub proof fn lemma_laid_out_wf(
        direction: Direction,
        position: Position,
        first_entity: Entity,
        seeds: Seq<u16>,
    )
        requires
            first_entity + seeds.len() + 1 <= u64::MAX,
        ensures
            SnakeView::laid_out(direction, position, first_entity, seeds).wf(),
            SnakeView::laid_out(direction, position, first_entity, seeds).distinct(),
            SnakeView::laid_out(direction, position, first_entity, seeds).fragments.len()
                == seeds.len() + 2,
    {
    }

    /// How a snake lies on a grid depends on nothing but the size of the
    /// grid.
    pub proof fn lemma_same_grid(self, first: TileMapView, second: TileMapView)
        requires
            first.width == second.width,
            first.height == second.height,
        ensures
            self.on_grid(first) == self.on_grid(second),
            self.connected(first) == self.connected(second),
            self.tail_remembered(first) == self.tail_remembered(second),
            self.clamped(first) == self.clamped(second),
    {
        assert forall|position: Position| first.covers(position) == second.covers(position) by {}
        assert forall|position: Position| first.clamped(position) == second.clamped(position) by {}
        if self.on_grid(first) {
            assert forall|i: int| 0 <= i < self.fragments.len() implies second.covers(
                (#[trigger] self.fragments[i]).position,
            ) by {
                assert(first.covers(self.fragments[i].position));
            }
        }
        if self.on_grid(second) {
            assert forall|i: int| 0 <= i < self.fragments.len() implies first.covers(
                (#[trigger] self.fragments[i]).position,
            ) by {
                assert(second.covers(self.fragments[i].position));
            }
        }
        if self.connected(first) {
            assert forall|i: int| 0 <= i < self.fragments.len() - 1 implies linked(
                second,
                #[trigger] self.fragments[i],
                self.fragments[i + 1],
            ) by {
                assert(linked(first, self.fragments[i], self.fragments[i + 1]));
            }
        }
        if self.connected(second) {
            assert forall|i: int| 0 <= i < self.fragments.len() - 1 implies linked(
                first,
                #[trigger] self.fragments[i],
                self.fragments[i + 1],
            ) by {
                assert(linked(second, self.fragments[i], self.fragments[i + 1]));
            }
        }
        assert(self.clamped(first).fragments =~= self.clamped(second).fragments);
    }

    /// A straight line of tiles whose ends are on the grid is on the grid.
    pub proof fn lemma_line_on_grid(
        map: TileMapView,
        position: Position,
        direction: Direction,
        reach: int,
        i: int,
    )
        requires
            0 <= i <= reach,
            map.in_bounds(position.0.x as int, position.0.y as int),
            map.in_bounds(position.0.x + direction.run_x(reach), position.0.y + direction.run_y(reach)),
        ensures
            map.in_bounds(position.0.x + direction.run_x(i), position.0.y + direction.run_y(i)),
    {
    }

    /// A fresh snake whose head and tail are on the grid lies connected on
    /// the grid.
    pub proof fn lemma_laid_out_connected(
        map: TileMapView,
        direction: Direction,
        position: Position,
        first_entity: Entity,
        seeds: Seq<u16>,
    )
        requires
            map.wf(),
            map.covers(position),
            map.in_bounds(
                position.0.x + direction.opposite().run_x(seeds.len() + 1int),
                position.0.y + direction.opposite().run_y(seeds.len() + 1int),
            ),
        ensures
            SnakeView::laid_out(direction, position, first_entity, seeds).on_grid(map),
            SnakeView::laid_out(direction, position, first_entity, seeds).connected(map),
            SnakeView::laid_out(direction, position, first_entity, seeds).tail_remembered(map),
    {
        let snake = SnakeView::laid_out(direction, position, first_entity, seeds);
        let back = direction.opposite();
        let n = seeds.len() + 2;
        assert forall|i: int| 0 <= i < snake.fragments.len() implies map.covers(
            (#[trigger] snake.fragments[i]).position,
        ) by {
            Self::lemma_line_on_grid(map, position, back, n - 1, i);
        }
        assert forall|i: int| 0 <= i < snake.fragments.len() - 1 implies linked(
            map,
            #[trigger] snake.fragments[i],
            snake.fragments[i + 1],
        ) by {
            Self::lemma_line_on_grid(map, position, back, n - 1, i);
            Self::lemma_line_on_grid(map, position, back, n - 1, i + 1);
            assert(snake.fragments[i + 1].position.stepped(direction) == snake.fragments[i].position);
        }
    }

    /// Segment adjacency after a move: a snake that lies connected on the
    /// grid lies connected on the grid again after it has moved and was
    /// wrapped, and the place it remembers for a new tail is one step
    /// behind its tail.
    pub proof fn lemma_move_keeps_connected(self, map: TileMapView)
        requires
            self.wf(),
            map.wf(),
            self.on_grid(map),
            self.connected(map),
        ensures
            self.moved().clamped(map).wf(),
            self.moved().clamped(map).on_grid(map),
            self.moved().clamped(map).connected(map),
            self.moved().clamped(map).tail_remembered(map),
            self.moved().clamped(map).head().position == map.clamped(
                self.head().position.stepped(self.resolved_direction()),
            ),
            forall|i: int|
                0 < i < self.fragments.len() ==> (#[trigger] self.moved().clamped(
                    map,
                ).fragments[i]).position == self.fragments[i - 1].position,
    {
        let after = self.moved().clamped(map);
        let direction = self.resolved_direction();
        map.lemma_step_then_clamp_is_covered(self.head().position, direction);
        assert forall|i: int| 0 <= i < after.fragments.len() implies map.covers(
            (#[trigger] after.fragments[i]).position,
        ) by {
            if i > 0 {
                assert(map.covers(self.fragments[i - 1].position));
                map.lemma_clamped_on_grid(self.fragments[i - 1].position);
            }
        }
        assert forall|i: int| 0 <= i < after.fragments.len() - 1 implies linked(
            map,
            #[trigger] after.fragments[i],
            after.fragments[i + 1],
        ) by {
            assert(map.covers(self.fragments[i].position));
            map.lemma_clamped_on_grid(self.fragments[i].position);
            if i > 0 {
                assert(map.covers(self.fragments[i - 1].position));
                map.lemma_clamped_on_grid(self.fragments[i - 1].position);
                assert(linked(map, self.fragments[i - 1], self.fragments[i]));
            }
        }
        let n = self.fragments.len() as int;
        assert(map.covers(self.fragments[n - 1].position));
        assert(map.covers(self.fragments[n - 2].position));
        map.lemma_clamped_on_grid(self.fragments[n - 2].position);
        assert(linked(map, self.fragments[n - 2], self.fragments[n - 1]));
    }

    /// Segment adjacency after a growth: a snake that lies connected on
    /// the grid, with the place for a new tail remembered one step behind
    /// its tail, lies connected on the grid after it grew.
    pub proof fn lemma_grow_keeps_connected(self, map: TileMapView, entity: Entity, seed: u16)
        requires
            self.wf(),
            map.wf(),
            self.on_grid(map),
            self.connected(map),
            self.tail_remembered(map),
        ensures
            self.grown(entity, seed).wf(),
            self.grown(entity, seed).on_grid(map),
            self.grown(entity, seed).connected(map),
            self.grown(entity, seed).tail_remembered(map),
            self.distinct() && !self.has(entity) ==> self.grown(entity, seed).distinct(),
    {
        let after = self.grown(entity, seed);
        let n = self.fragments.len() as int;
        if self.can_grow() {
            assert forall|i: int| 0 <= i < after.fragments.len() - 1 implies linked(
                map,
                #[trigger] after.fragments[i],
                after.fragments[i + 1],
            ) by {
                if i < n - 1 {
                    assert(linked(map, self.fragments[i], self.fragments[i + 1]));
                }
            }
            assert forall|i: int| 0 <= i < after.fragments.len() implies map.covers(
                (#[trigger] after.fragments[i]).position,
            ) by {
                if i < n {
                    assert(map.covers(self.fragments[i].position));
                }
            }
            assert forall|i: int| 0 < i < after.fragments.len() - 1 implies (
            #[trigger] after.fragments[i]).kind is Body by {
                if i < n - 1 {
                    assert(self.fragments[i].kind is Body);
                }
            }
            if self.distinct() && !self.has(entity) {
                assert forall|i: int, j: int| 0 <= i < j < after.fragments.len() implies (
                #[trigger] after.fragments[i]).entity != (#[trigger] after.fragments[j]).entity by {
                    if j < n {
                        assert(self.fragments[i].entity != self.fragments[j].entity);
                    } else {
                        assert(self.fragments[i].entity != entity);
                    }
                }
            }
        }
    }

    /// Neighbours of a connected snake are one step apart in some
    /// direction.
    pub proof fn lemma_connected_is_one_step_apart(self, map: TileMapView, i: int)
        requires
            self.connected(map),
            0 <= i < self.fragments.len() - 1,
        ensures
            one_step_apart(map, self.fragments[i].position, self.fragments[i + 1].position),
    {
        assert(linked(map, self.fragments[i], self.fragments[i + 1]));
        assert(map.clamped(self.fragments[i + 1].position.stepped(self.fragments[i].direction))
            == self.fragments[i].position);
    }
}

/// A snake.
#[derive(Debug)]
pub struct Snake {
    fragments: Vec<Fragment>,
    next_direction: Option<Direction>,
    last_known_tail: Option<(Position, Direction)>,
}

impl View for Snake {
    type V = SnakeView;

    closed spec fn view(&self) -> SnakeView {
        SnakeView {
            fragments: self.fragments@,
            next_direction: self.next_direction,
            last_known_tail: self.last_known_tail,
        }
    }
}

impl Snake {
    /// What holds of every snake this module hands out.
    pub open spec fn wf(&self) -> bool {
        self@.wf()
    }

    /// Lays out a snake with one body fragment per seed: the head at
    /// `position`, every further fragment one step behind the one ahead,
    /// all facing `direction`. The fragments get the identities from
    /// `first_entity` on.
    ///
    /// The coordinates of the tail and the identities must fit their
    /// types.
    pub fn from_seeds(
        direction: Direction,
        position: Position,
        first_entity: Entity,
        seeds: &Vec<u16>,
    ) -> (snake: Snake)
        requires
            fits_i32(position.0.x + direction.opposite().run_x(seeds@.len() + 1int)),
            fits_i32(position.0.y + direction.opposite().run_y(seeds@.len() + 1int)),
            first_entity + seeds@.len() + 1 <= u64::MAX,
            seeds@.len() + 2 <= usize::MAX,
        ensures
            snake.wf(),
            snake@ == SnakeView::laid_out(direction, position, first_entity, seeds@),
            snake@.distinct(),
    {
        let back = direction.opposite().to_ivec3();
        let count: usize = seeds.len() + 2;
        let ghost goal = SnakeView::laid_out(direction, position, first_entity, seeds@);
        let mut fragments: Vec<Fragment> = Vec::new();
        let mut place = position;
        let mut entity: Entity = first_entity;
        let mut i: usize = 0;
        while i < count
            invariant
                count == seeds@.len() + 2,
                back == direction.opposite().unit(),
                fits_i32(position.0.x + direction.opposite().run_x(seeds@.len() + 1int)),
                fits_i32(position.0.y + direction.opposite().run_y(seeds@.len() + 1int)),
                first_entity + seeds@.len() + 1 <= u64::MAX,
                goal == SnakeView::laid_out(direction, position, first_entity, seeds@),
                i <= count,
                fragments@.len() == i,
                i < count ==> entity == first_entity + i,
                i < count ==> place.0.x == position.0.x + direction.opposite().run_x(i as int),
                i < count ==> place.0.y == position.0.y + direction.opposite().run_y(i as int),
                place.0.z == position.0.z,
                forall|k: int| 0 <= k < i ==> #[trigger] fragments@[k] == goal.fragments[k],
            decreases count - i,
        {
            let kind = if i == 0 {
                SnakeFragment::Head
            } else if i < count - 1 {
                SnakeFragment::Body(seeds[i - 1])
            } else {
                SnakeFragment::Tail
            };
            fragments.push(
                Fragment { entity, kind, position: place, direction, previous_direction: None },
            );
            i = i + 1;
            if i < count {
                place = place + back;
                entity = entity + 1;
            }
        }
        let snake = Snake { fragments, next_direction: None, last_known_tail: None };
        proof {
            assert(snake@.fragments =~= goal.fragments);
            SnakeView::lemma_laid_out_wf(direction, position, first_entity, seeds@);
        }
        snake
    }

    /// The fragments, from head to tail.
    pub fn fragments(&self) -> (fragments: &[Fragment])
        ensures
            fragments@ == self@.fragments,
    {
        self.fragments.as_slice()
    }

    /// The number of fragments.
    pub fn len(&self) -> (len: usize)
        ensures
            len == self@.fragments.len(),
    {
        self.fragments.len()
    }

    /// The first fragment.
    pub fn head(&self) -> (head: Fragment)
        requires
            self.wf(),
        ensures
            head == self@.head(),
    {
        self.fragments[0]
    }

    /// The last fragment.
    pub fn tail(&self) -> (tail: Fragment)
        requires
            self.wf(),
        ensures
            tail == self@.tail(),
    {
        self.fragments[self.fragments.len() - 1]
    }

    /// The turn asked for since the last move, if any.
    pub fn next_direction(&self) -> (direction: Option<Direction>)
        ensures
            direction == self@.next_direction,
    {
        self.next_direction
    }

    /// Position and direction that the tail had before the most recent
    /// move, unless a growth has used them up.
    pub fn last_known_tail(&self) -> (memory: Option<(Position, Direction)>)
        ensures
            memory == self@.last_known_tail,
    {
        self.last_known_tail
    }

    /// Asks the snake to turn to `direction` at its next move, and tells
    /// whether it will. A turn back, to the opposite of the direction the
    /// head has, is not taken up, and what was asked for before stays.
    pub fn turn(&mut self, direction: Direction) -> (accepted: bool)
        requires
            old(self).wf(),
        ensures
            final(self).wf(),
            final(self)@ == old(self)@.turned(direction),
            accepted == (direction != old(self)@.head().direction.opposite()),
    {
        if direction != self.fragments[0].direction.opposite() {
            self.next_direction = Some(direction);
            true
        } else {
            false
        }
    }

    /// Moves the snake one tile: see [`SnakeView::moved`]. The head is not
    /// wrapped onto a grid.
    ///
    /// The step of the head must not leave the range of the coordinates.
    pub fn advance(&mut self)
        requires
            old(self).wf(),
            old(self)@.head().position.can_add(old(self)@.resolved_direction().unit()),
        ensures
            final(self).wf(),
            final(self)@ == old(self)@.moved(),
            final(self)@.fragments.len() == old(self)@.fragments.len(),
            final(self)@.head().direction != old(self)@.head().direction.opposite(),
    {
        let count: usize = self.fragments.len();
        let tail = self.fragments[count - 1];
        let head = self.fragments[0];
        let resolved = match self.next_direction {
            Some(direction) => direction,
            None => head.direction,
        };
        let ghost before = self@;
        let ghost goal = self@.moved();
        self.last_known_tail = Some((tail.position, tail.direction));
        self.next_direction = None;
        let mut position = head.position.step(resolved);
        let mut direction = resolved;
        let mut i: usize = 0;
        while i < count
            invariant
                count == before.fragments.len(),
                self.fragments@.len() == count,
                goal == before.moved(),
                i <= count,
                self.next_direction == goal.next_direction,
                self.last_known_tail == goal.last_known_tail,
                i == 0 ==> position == before.fragments[0].position.stepped(
                    before.resolved_direction(),
                ) && direction == before.resolved_direction(),
                i > 0 ==> position == before.fragments[i - 1].position && direction
                    == before.fragments[i - 1].direction,
                forall|k: int| 0 <= k < i ==> #[trigger] self.fragments@[k] == goal.fragments[k],
                forall|k: int|
                    i <= k < count ==> #[trigger] self.fragments@[k] == before.fragments[k],
            decreases count - i,
        {
            let current = self.fragments[i];
            self.fragments[i] = Fragment {
                position,
                direction,
                previous_direction: Some(current.direction),
                ..current
            };
            position = current.position;
            direction = current.direction;
            i = i + 1;
        }
        proof {
            assert(self@.fragments =~= goal.fragments);
            before.lemma_move_never_reverses();
        }
    }

    /// Wraps every fragment onto the grid of `tile_map`: see
    /// [`clamp_position`](crate::tile_map::clamp_position).
    pub fn clamp(&mut self, tile_map: &TileMap)
        requires
            old(self).wf(),
            tile_map.wf(),
        ensures
            final(self).wf(),
            final(self)@ == old(self)@.clamped(tile_map@),
    {
        let count: usize = self.fragments.len();
        let ghost before = self@;
        let ghost goal = self@.clamped(tile_map@);
        let mut i: usize = 0;
        while i < count
            invariant
                tile_map.wf(),
                count == before.fragments.len(),
                self.fragments@.len() == count,
                goal == before.clamped(tile_map@),
                i <= count,
                self.next_direction == before.next_direction,
                self.last_known_tail == before.last_known_tail,
                forall|k: int| 0 <= k < i ==> #[trigger] self.fragments@[k] == goal.fragments[k],
                forall|k: int|
                    i <= k < count ==> #[trigger] self.fragments@[k] == before.fragments[k],
            decreases count - i,
        {
            let mut fragment = self.fragments[i];
            crate::tile_map::clamp_position(&mut fragment.position, tile_map);
            self.fragments[i] = fragment;
            i = i + 1;
        }
        proof {
            assert(self@.fragments =~= goal.fragments);
        }
    }

    /// Lets the snake grow by one fragment, if it can, and tells whether
    /// it did: see [`SnakeView::grown`]. A snake can grow once after each
    /// move.
    pub fn grow(&mut self, entity: Entity, seed: u16) -> (grew: bool)
        requires
            old(self).wf(),
        ensures
            final(self).wf(),
            final(self)@ == old(self)@.grown(entity, seed),
            grew == old(self)@.can_grow(),
            final(self)@.fragments.len() == old(self)@.fragments.len() + (if grew {
                1int
            } else {
                0int
            }),
    {
        match self.last_known_tail {
            Some(memory) => {
                let ghost before = self@;
                let last: usize = self.fragments.len() - 1;
                let tail = self.fragments[last];
                self.fragments[last] = Fragment { kind: SnakeFragment::Body(seed), ..tail };
                self.fragments.push(
                    Fragment {
                        entity,
                        kind: SnakeFragment::Tail,
                        position: memory.0,
                        direction: memory.1,
                        previous_direction: None,
                    },
                );
                self.last_known_tail = None;
                proof {
                    assert(self@.fragments =~= before.grown(entity, seed).fragments);
                    assert forall|i: int| 0 < i < self@.fragments.len() - 1 implies (
                    #[trigger] self@.fragments[i]).kind is Body by {
                        if i < last {
                            assert(before.fragments[i].kind is Body);
                        }
                    }
                }
                true
            },
            None => false,
        }
    }
}

/// Lays out a snake of `fragment_count` fragments like
/// [`Snake::from_seeds`], with visual seeds drawn from `number_generator`.
///
/// Fails with [`ConfigurationError::InvalidLength`] exactly when the snake
/// would have fewer than two fragments. The coordinates of the tail and the
/// identities must fit their types.
pub fn spawn_snake(
    direction: Direction,
    position: IVec3,
    fragment_count: usize,
    first_entity: Entity,
    number_generator: &mut NumberGenerator,
) -> (result: Result<Snake, ConfigurationError>)
    requires
        old(number_generator).wf(),
        fits_i32(position.x + direction.opposite().run_x(fragment_count - 1int)),
        fits_i32(position.y + direction.opposite().run_y(fragment_count - 1int)),
        first_entity + fragment_count <= u64::MAX,
    ensures
        final(number_generator).wf(),
        final(number_generator).bounds() == old(number_generator).bounds(),
        result is Err <==> fragment_count < 2,
        result matches Err(error) ==> error == ConfigurationError::InvalidLength,
        result matches Ok(snake) ==> {
            &&& snake.wf()
            &&& snake@.distinct()
            &&& exists|seeds: Seq<u16>|
                {
                    &&& snake@ == #[trigger] SnakeView::laid_out(
                        direction,
                        Position(position),
                        first_entity,
                        seeds,
                    )
                    &&& seeds.len() + 2 == fragment_count
                    &&& forall|i: int|
                        0 <= i < seeds.len() ==> old(number_generator).admits(#[trigger] seeds[i])
                }
        },
{
    if fragment_count < 2 {
        return Err(ConfigurationError::InvalidLength);
    }
    let count: usize = fragment_count - 2;
    let mut seeds: Vec<u16> = Vec::new();
    let mut i: usize = 0;
    while i < count
        invariant
            i <= count,
            seeds@.len() == i,
            number_generator.wf(),
            number_generator.bounds() == old(number_generator).bounds(),
            forall|k: int| 0 <= k < i ==> old(number_generator).admits(#[trigger] seeds@[k]),
        decreases count - i,
    {
        let seed = number_generator.generate();
        seeds.push(seed);
        i = i + 1;
    }
    let snake = Snake::from_seeds(direction, Position(position), first_entity, &seeds);
    proof {
        assert(snake@ == SnakeView::laid_out(direction, Position(position), first_entity, seeds@));
    }
    Ok(snake)
}

} // verus!
