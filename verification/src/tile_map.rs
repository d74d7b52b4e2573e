//! The tile map: a dense grid of tiles, each of which records the actors
//! that stand on it.
//!
//! The map is an index derived from the positions of the actors. It is kept
//! up to date by telling it of every move and every removal.

use crate::entity::Entity;
use crate::error::ConfigurationError;
use crate::position::Position;
use crate::rigid_body::{ids_distinct, knows, lemma_stands_insert, lemma_stands_remove, lemma_stands_update, stands, RigidBody};
use crate::direction::Direction;
use crate::vector::{IVec3, UVec2};
use itertools::Itertools;
use std::collections::HashSet;
use vstd::prelude::*;

verus! {

/// The largest number of tiles a map can have. Every coordinate of such a
/// map fits a signed coordinate, and the list of its coordinates fits the
/// memory that a 32-bit machine can address.
pub const MAX_TILES: usize = 0x0FFF_FFFF;

/// What a [`Tile`] holds, as mathematical values.
#[verifier::ext_equal]
pub struct TileView {
    /// The coordinate of the tile.
    pub position: UVec2,
    /// The actors that stand on the tile.
    pub occupants: Set<Entity>,
}

/// One cell of the grid.
pub struct Tile {
    entities: HashSet<Entity>,
    position: UVec2,
}

impl View for Tile {
    type V = TileView;

    closed spec fn view(&self) -> TileView {
        TileView { position: self.position, occupants: self.entities@ }
    }
}

impl Tile {
    /// A tile at `position` on which nobody stands.
    pub fn new(position: UVec2) -> (tile: Self)
        ensures
            tile@ == (TileView { position, occupants: Set::empty() }),
    {
        Tile { entities: HashSet::new(), position }
    }

    /// The column of the tile.
    pub fn x(&self) -> (x: u32)
        ensures
            x == self@.position.x,
    {
        self.position.x
    }

    /// The row of the tile.
    pub fn y(&self) -> (y: u32)
        ensures
            y == self@.position.y,
    {
        self.position.y
    }

    /// The coordinate of the tile.
    pub fn position(&self) -> (position: UVec2)
        ensures
            position == self@.position,
    {
        self.position
    }

    /// Whether nobody stands on the tile.
    pub fn is_empty(&self) -> (empty: bool)
        ensures
            empty == (self@.occupants =~= Set::<Entity>::empty()),
    {
        self.entities.is_empty()
    }

    /// Whether `entity` stands on the tile.
    pub fn contains(&self, entity: Entity) -> (found: bool)
        ensures
            found == self@.occupants.contains(entity),
    {
        self.entities.contains(&entity)
    }

    /// Records that `entity` stands on the tile. Tells whether it was not
    /// recorded before.
    pub fn add_entity(&mut self, entity: Entity) -> (added: bool)
        ensures
            final(self)@ == (TileView {
                occupants: old(self)@.occupants.insert(entity),
                ..old(self)@
            }),
            added == !old(self)@.occupants.contains(entity),
    {
        self.entities.insert(entity)
    }

    /// Records that `entity` no longer stands on the tile. Tells whether
    /// it was recorded before.
    pub fn remove_entity(&mut self, entity: Entity) -> (removed: bool)
        ensures
            final(self)@ == (TileView {
                occupants: old(self)@.occupants.remove(entity),
                ..old(self)@
            }),
            removed == old(self)@.occupants.contains(entity),
    {
        self.entities.remove(&entity)
    }
}

/// A coordinate brought back onto an axis of length `size` after it left
/// it by less than `size`: one length is taken off a coordinate at or past
/// the far edge and added to a negative one.
pub open spec fn wrap_axis(value: int, size: int) -> int {
    if value >= size {
        value - size
    } else if value < 0 {
        value + size
    } else {
        value
    }
}

/// What a [`TileMap`] holds, as mathematical values.
#[verifier::ext_equal]
pub struct TileMapView {
    /// The number of columns.
    pub width: nat,
    /// The number of rows.
    pub height: nat,
    /// The tiles, row by row, each row from its first column on.
    pub tiles: Seq<TileView>,
}

impl TileMapView {
    /// What holds of every tile map: it has tiles, no more than
    /// [`MAX_TILES`], and the tile at index `y * width + x` is the one of
    /// column `x` and row `y`.
    pub open spec fn wf(self) -> bool {
        &&& 0 < self.width
        &&& 0 < self.height
        &&& self.width <= MAX_TILES
        &&& self.height <= MAX_TILES
        &&& self.width * self.height <= MAX_TILES
        &&& self.tiles.len() == self.width * self.height
        &&& forall|i: int|
            0 <= i < self.tiles.len() ==> (#[trigger] self.tiles[i]).position == (UVec2 {
                x: (i % self.width as int) as u32,
                y: (i / self.width as int) as u32,
            })
    }

    /// Whether the map has a tile of column `x` and row `y`.
    pub open spec fn in_bounds(self, x: int, y: int) -> bool {
        0 <= x < self.width && 0 <= y < self.height
    }

    /// The index of the tile of column `x` and row `y`.
    pub open spec fn index(self, x: int, y: int) -> int {
        y * self.width + x
    }

    /// Whether `position` lies on a tile of the map. The layer is not
    /// looked at.
    pub open spec fn covers(self, position: Position) -> bool {
        self.in_bounds(position.0.x as int, position.0.y as int)
    }

    /// The index of the tile that `position` lies on.
    pub open spec fn index_of(self, position: Position) -> int {
        self.index(position.0.x as int, position.0.y as int)
    }

    /// The actors recorded on the tile of column `x` and row `y`.
    pub open spec fn occupants_at(self, x: int, y: int) -> Set<Entity> {
        self.tiles[self.index(x, y)].occupants
    }

    /// Whether nobody is recorded on any tile.
    pub open spec fn unoccupied(self) -> bool {
        forall|i: int|
            0 <= i < self.tiles.len() ==> (#[trigger] self.tiles[i]).occupants
                == Set::<Entity>::empty()
    }

    /// The map after `entity` was taken off the tile that `position` lies
    /// on. A position off the map changes nothing.
    pub open spec fn without(self, entity: Entity, position: Position) -> TileMapView {
        if self.covers(position) {
            let i = self.index_of(position);
            TileMapView {
                tiles: self.tiles.update(
                    i,
                    TileView { occupants: self.tiles[i].occupants.remove(entity), ..self.tiles[i] },
                ),
                ..self
            }
        } else {
            self
        }
    }

    /// The map after `entity` was put on the tile that `position` lies on.
    /// A position off the map changes nothing.
    pub open spec fn with(self, entity: Entity, position: Position) -> TileMapView {
        if self.covers(position) {
            let i = self.index_of(position);
            TileMapView {
                tiles: self.tiles.update(
                    i,
                    TileView { occupants: self.tiles[i].occupants.insert(entity), ..self.tiles[i] },
                ),
                ..self
            }
        } else {
            self
        }
    }

    /// The map after `entity` moved from `old_position`, if it had one, to
    /// `new_position`.
    pub open spec fn updated(
        self,
        entity: Entity,
        new_position: Position,
        old_position: Option<Position>,
    ) -> TileMapView {
        match old_position {
            Some(old) => self.without(entity, old).with(entity, new_position),
            None => self.with(entity, new_position),
        }
    }

    /// The coordinates of the tiles on which nobody stands, in the order of
    /// the tiles.
    pub open spec fn empty_positions(self) -> Seq<UVec2> {
        self.tiles.filter(|tile: TileView| tile.occupants == Set::<Entity>::empty()).map_values(
            |tile: TileView| tile.position,
        )
    }

    /// The position that `position` is wrapped to: a coordinate at or past
    /// the far edge of its axis comes back in by the length of the axis, a
    /// negative one goes forward by it. The layer stays.
    pub open spec fn clamped(self, position: Position) -> Position {
        Position(
            IVec3 {
                x: wrap_axis(position.0.x as int, self.width as int) as i32,
                y: wrap_axis(position.0.y as int, self.height as int) as i32,
                z: position.0.z,
            },
        )
    }

    /// The map of `width` columns and `height` rows that records `bodies`:
    /// on every tile stand the bodies whose column and row are those of
    /// the tile.
    pub open spec fn of(width: nat, height: nat, bodies: Seq<RigidBody>) -> TileMapView {
        TileMapView {
            width,
            height,
            tiles: Seq::new(
                width * height,
                |i: int|
                    TileView {
                        position: UVec2 {
                            x: (i % width as int) as u32,
                            y: (i / width as int) as u32,
                        },
                        occupants: Set::new(
                            |entity: Entity|
                                stands(bodies, entity, i % width as int, i / width as int),
                        ),
                    },
            ),
        }
    }

    /// Whether the map records exactly `bodies`, each on the tile it stands
    /// on: for every tile, its occupants are the identities of the bodies
    /// whose column and row are those of the tile.
    pub open spec fn records(self, bodies: Seq<RigidBody>) -> bool {
        forall|x: int, y: int, entity: Entity|
            self.in_bounds(x, y) ==> (#[trigger] self.occupants_at(x, y).contains(entity)
                <==> stands(bodies, entity, x, y))
    }
}

impl TileMapView {
    /// Putting an actor on a tile, or taking one off, keeps a map well
    /// formed and leaves its size alone.
    pub proof fn lemma_updated_wf(
        self,
        entity: Entity,
        new_position: Position,
        old_position: Option<Position>,
    )
        requires
            self.wf(),
        ensures
            self.without(entity, new_position).wf(),
            self.with(entity, new_position).wf(),
            self.updated(entity, new_position, old_position).wf(),
            self.updated(entity, new_position, old_position).width == self.width,
            self.updated(entity, new_position, old_position).height == self.height,
    {
        if self.covers(new_position) {
            lemma_index_in_grid(
                self.width as int,
                self.height as int,
                new_position.0.x as int,
                new_position.0.y as int,
            );
        }
        match old_position {
            Some(old) => {
                if self.covers(old) {
                    lemma_index_in_grid(
                        self.width as int,
                        self.height as int,
                        old.0.x as int,
                        old.0.y as int,
                    );
                }
            },
            None => {},
        }
    }

    /// The wrap invariant: after a step from a tile of the grid, wrapping
    /// leads to a tile of the grid again, the one a lap around the torus
    /// leads to.
    pub proof fn lemma_step_then_clamp_is_covered(self, position: Position, direction: Direction)
        requires
            self.wf(),
            self.covers(position),
        ensures
            position.can_add(direction.unit()),
            self.covers(self.clamped(position.stepped(direction))),
            self.clamped(position.stepped(direction)).0.x == (position.0.x + direction.unit().x)
                % (self.width as int),
            self.clamped(position.stepped(direction)).0.y == (position.0.y + direction.unit().y)
                % (self.height as int),
            self.clamped(position.stepped(direction)).0.z == position.0.z,
    {
        let w = self.width as int;
        let h = self.height as int;
        let x = position.0.x + direction.unit().x;
        let y = position.0.y + direction.unit().y;
        let qx = if x >= w { 1int } else if x < 0 { -1int } else { 0int };
        let qy = if y >= h { 1int } else if y < 0 { -1int } else { 0int };
        assert(x == qx * w + wrap_axis(x, w)) by (nonlinear_arith)
            requires
                qx == (if x >= w { 1int } else if x < 0 { -1int } else { 0int }),
        ;
        assert(y == qy * h + wrap_axis(y, h)) by (nonlinear_arith)
            requires
                qy == (if y >= h { 1int } else if y < 0 { -1int } else { 0int }),
        ;
        vstd::arithmetic::div_mod::lemma_fundamental_div_mod_converse(x, w, qx, wrap_axis(x, w));
        vstd::arithmetic::div_mod::lemma_fundamental_div_mod_converse(y, h, qy, wrap_axis(y, h));
    }

    /// A position on the grid is left alone by wrapping.
    pub proof fn lemma_clamped_on_grid(self, position: Position)
        requires
            self.covers(position),
        ensures
            self.clamped(position) == position,
    {
    }

    /// Every coordinate among the empty positions is that of a tile of the
    /// map on which nobody stands, and the coordinate of every such tile is
    /// among them.
    pub proof fn lemma_empty_positions(self)
        requires
            self.wf(),
        ensures
            forall|k: int|
                0 <= k < self.empty_positions().len() ==> {
                    &&& self.in_bounds(
                        (#[trigger] self.empty_positions()[k]).x as int,
                        self.empty_positions()[k].y as int,
                    )
                    &&& self.occupants_at(
                        self.empty_positions()[k].x as int,
                        self.empty_positions()[k].y as int,
                    ) == Set::<Entity>::empty()
                },
            forall|x: int, y: int|
                self.in_bounds(x, y) && #[trigger] self.occupants_at(x, y) == Set::<Entity>::empty()
                    ==> self.empty_positions().contains(UVec2 { x: x as u32, y: y as u32 }),
    {
        let unoccupied = |tile: TileView| tile.occupants == Set::<Entity>::empty();
        let place = |tile: TileView| tile.position;
        let kept = self.tiles.filter(unoccupied);
        let w = self.width as int;
        let h = self.height as int;
        assert forall|k: int| 0 <= k < self.empty_positions().len() implies {
            &&& self.in_bounds(
                (#[trigger] self.empty_positions()[k]).x as int,
                self.empty_positions()[k].y as int,
            )
            &&& self.occupants_at(
                self.empty_positions()[k].x as int,
                self.empty_positions()[k].y as int,
            ) == Set::<Entity>::empty()
        } by {
            self.tiles.lemma_filter_pred(unoccupied, k);
            assert(kept.contains(kept[k]));
            self.tiles.lemma_filter_contains_rev(unoccupied, kept[k]);
            let i = choose|i: int| 0 <= i < self.tiles.len() && self.tiles[i] == kept[k];
            lemma_grid_of_index(w, h, i);
            assert(self.tiles[i].position.x == i % w);
            assert(self.index(i % w, i / w) == i);
        }
        assert forall|x: int, y: int|
            self.in_bounds(x, y) && #[trigger] self.occupants_at(x, y) == Set::<
                Entity,
            >::empty() implies self.empty_positions().contains(
            UVec2 { x: x as u32, y: y as u32 },
        ) by {
            lemma_index_in_grid(w, h, x, y);
            let i = self.index(x, y);
            self.tiles.lemma_filter_contains(unoccupied, i);
            let k = choose|k: int| 0 <= k < kept.len() && kept[k] == self.tiles[i];
            assert(self.empty_positions()[k] == self.tiles[i].position);
        }
    }

    /// A map on which nobody stands records no bodies.
    pub proof fn lemma_unoccupied_records_nobody(self)
        requires
            self.wf(),
            self.unoccupied(),
        ensures
            self.records(Seq::<RigidBody>::empty()),
    {
        assert forall|x: int, y: int, entity: Entity| self.in_bounds(x, y) implies (
        #[trigger] self.occupants_at(x, y).contains(entity) <==> stands(
            Seq::<RigidBody>::empty(),
            entity,
            x,
            y,
        )) by {
            lemma_index_in_grid(self.width as int, self.height as int, x, y);
        }
    }

    /// What putting an actor on a tile does to what the map records: the
    /// map then records bodies `after`, if these stand where the bodies
    /// recorded before stand and where the actor was put.
    pub proof fn lemma_with_records(
        self,
        before: Seq<RigidBody>,
        after: Seq<RigidBody>,
        entity: Entity,
        position: Position,
    )
        requires
            self.wf(),
            self.records(before),
            forall|other: Entity, x: int, y: int|
                #![trigger stands(after, other, x, y)]
                stands(after, other, x, y) <==> stands(before, other, x, y) || (other == entity
                    && position.0.x == x && position.0.y == y),
        ensures
            self.with(entity, position).wf(),
            self.with(entity, position).records(after),
    {
        self.lemma_updated_wf(entity, position, None);
        let changed = self.with(entity, position);
        let w = self.width as int;
        let h = self.height as int;
        assert forall|x: int, y: int, other: Entity| changed.in_bounds(x, y) implies (
        #[trigger] changed.occupants_at(x, y).contains(other) <==> stands(after, other, x, y)) by {
            lemma_index_in_grid(w, h, x, y);
            assert(self.in_bounds(x, y));
            assert(self.occupants_at(x, y).contains(other) <==> stands(before, other, x, y));
            if self.covers(position) {
                lemma_index_in_grid(w, h, position.0.x as int, position.0.y as int);
            }
        }
    }

    /// What taking an actor off a tile does to what the map records: the
    /// map then records bodies `after`, if these stand where the bodies
    /// recorded before stand, but for the actor on the tile it was taken
    /// off.
    pub proof fn lemma_without_records(
        self,
        before: Seq<RigidBody>,
        after: Seq<RigidBody>,
        entity: Entity,
        position: Position,
    )
        requires
            self.wf(),
            self.records(before),
            forall|other: Entity, x: int, y: int|
                #![trigger stands(after, other, x, y)]
                stands(after, other, x, y) <==> stands(before, other, x, y) && !(other == entity
                    && position.0.x == x && position.0.y == y),
        ensures
            self.without(entity, position).wf(),
            self.without(entity, position).records(after),
    {
        self.lemma_updated_wf(entity, position, None);
        let changed = self.without(entity, position);
        let w = self.width as int;
        let h = self.height as int;
        assert forall|x: int, y: int, other: Entity| changed.in_bounds(x, y) implies (
        #[trigger] changed.occupants_at(x, y).contains(other) <==> stands(after, other, x, y)) by {
            lemma_index_in_grid(w, h, x, y);
            assert(self.in_bounds(x, y));
            assert(self.occupants_at(x, y).contains(other) <==> stands(before, other, x, y));
            if self.covers(position) {
                lemma_index_in_grid(w, h, position.0.x as int, position.0.y as int);
            }
        }
    }

    /// Tile-map consistency is kept by a move: a map that records bodies
    /// with distinct identities, and is told that one of them moved from
    /// where it stood, records the bodies after the move.
    pub proof fn lemma_update_keeps_records(self, bodies: Seq<RigidBody>, i: int, position: Position)
        requires
            self.wf(),
            self.records(bodies),
            ids_distinct(bodies),
            0 <= i < bodies.len(),
        ensures
            self.updated(bodies[i].entity, position, Some(bodies[i].position)).wf(),
            self.updated(bodies[i].entity, position, Some(bodies[i].position)).records(
                bodies.update(i, bodies[i].moved_to(position)),
            ),
            ids_distinct(bodies.update(i, bodies[i].moved_to(position))),
    {
        let entity = bodies[i].entity;
        let gone = bodies.remove(i);
        let after = bodies.update(i, bodies[i].moved_to(position));
        assert forall|other: Entity, x: int, y: int| #![trigger stands(gone, other, x, y)]
            stands(gone, other, x, y) <==> stands(bodies, other, x, y) && !(other == entity
                && bodies[i].position.0.x == x && bodies[i].position.0.y == y) by {
            lemma_stands_remove(bodies, i, other, x, y);
            if stands(bodies, other, x, y) && other == entity {
                let k = choose|k: int|
                    0 <= k < bodies.len() && (#[trigger] bodies[k]).is_at(other, x, y);
                if k < i {
                    assert(bodies[k].entity != bodies[i].entity);
                } else if i < k {
                    assert(bodies[i].entity != bodies[k].entity);
                }
            }
        }
        self.lemma_without_records(bodies, gone, entity, bodies[i].position);
        assert forall|other: Entity, x: int, y: int| #![trigger stands(after, other, x, y)]
            stands(after, other, x, y) <==> stands(gone, other, x, y) || (other == entity
                && position.0.x == x && position.0.y == y) by {
            lemma_stands_update(bodies, i, position, other, x, y);
            lemma_stands_remove(bodies, i, other, x, y);
        }
        self.without(entity, bodies[i].position).lemma_with_records(gone, after, entity, position);
        lemma_stands_update(bodies, i, position, entity, 0, 0);
    }

    /// Tile-map consistency is kept by an arrival: a map that records
    /// bodies, and is told of a new one, records the bodies with the new
    /// one, wherever it is put among them.
    pub proof fn lemma_add_keeps_records(self, bodies: Seq<RigidBody>, i: int, body: RigidBody)
        requires
            self.wf(),
            self.records(bodies),
            0 <= i <= bodies.len(),
        ensures
            self.updated(body.entity, body.position, None).wf(),
            self.updated(body.entity, body.position, None).records(bodies.insert(i, body)),
            ids_distinct(bodies) && !knows(bodies, body.entity) ==> ids_distinct(
                bodies.insert(i, body),
            ),
    {
        let after = bodies.insert(i, body);
        assert forall|other: Entity, x: int, y: int| #![trigger stands(after, other, x, y)]
            stands(after, other, x, y) <==> stands(bodies, other, x, y) || (other == body.entity
                && body.position.0.x == x && body.position.0.y == y) by {
            lemma_stands_insert(bodies, i, body, other, x, y);
        }
        self.lemma_with_records(bodies, after, body.entity, body.position);
        lemma_stands_insert(bodies, i, body, 0, 0, 0);
    }

    /// Tile-map consistency is kept by a removal: a map that records
    /// bodies with distinct identities, and is told that one of them is
    /// gone from where it stood, records the bodies that are left.
    pub proof fn lemma_remove_keeps_records(self, bodies: Seq<RigidBody>, i: int)
        requires
            self.wf(),
            self.records(bodies),
            ids_distinct(bodies),
            0 <= i < bodies.len(),
        ensures
            self.without(bodies[i].entity, bodies[i].position).wf(),
            self.without(bodies[i].entity, bodies[i].position).records(bodies.remove(i)),
            ids_distinct(bodies.remove(i)),
    {
        let entity = bodies[i].entity;
        let gone = bodies.remove(i);
        assert forall|other: Entity, x: int, y: int| #![trigger stands(gone, other, x, y)]
            stands(gone, other, x, y) <==> stands(bodies, other, x, y) && !(other == entity
                && bodies[i].position.0.x == x && bodies[i].position.0.y == y) by {
            lemma_stands_remove(bodies, i, other, x, y);
            if stands(bodies, other, x, y) && other == entity {
                let k = choose|k: int|
                    0 <= k < bodies.len() && (#[trigger] bodies[k]).is_at(other, x, y);
                if k < i {
                    assert(bodies[k].entity != bodies[i].entity);
                } else if i < k {
                    assert(bodies[i].entity != bodies[k].entity);
                }
            }
        }
        self.lemma_without_records(bodies, gone, entity, bodies[i].position);
        lemma_stands_remove(bodies, i, entity, 0, 0);
    }

    /// The map of some bodies records these bodies.
    pub proof fn lemma_of_records(width: nat, height: nat, bodies: Seq<RigidBody>)
        requires
            0 < width,
            0 < height,
            width * height <= MAX_TILES,
        ensures
            TileMapView::of(width, height, bodies).wf(),
            TileMapView::of(width, height, bodies).records(bodies),
            TileMapView::of(width, height, bodies).width == width,
            TileMapView::of(width, height, bodies).height == height,
    {
        let map = TileMapView::of(width, height, bodies);
        let w = width as int;
        let h = height as int;
        assert(w <= w * h && h <= w * h) by (nonlinear_arith)
            requires
                0 < w,
                0 < h,
        ;
        assert forall|x: int, y: int, entity: Entity| map.in_bounds(x, y) implies (
        #[trigger] map.occupants_at(x, y).contains(entity) <==> stands(bodies, entity, x, y)) by {
            lemma_index_in_grid(w, h, x, y);
        }
    }

    /// A map that records some bodies is the map of these bodies.
    pub proof fn lemma_records_is_of(self, bodies: Seq<RigidBody>)
        requires
            self.wf(),
            self.records(bodies),
        ensures
            self == TileMapView::of(self.width, self.height, bodies),
    {
        TileMapView::lemma_of_records(self.width, self.height, bodies);
        self.lemma_records_is_exact(TileMapView::of(self.width, self.height, bodies), bodies);
    }

    /// What a map records is all that its tiles hold: two maps of one size
    /// that record the same bodies are the same map.
    pub proof fn lemma_records_is_exact(self, other: TileMapView, bodies: Seq<RigidBody>)
        requires
            self.wf(),
            other.wf(),
            self.width == other.width,
            self.height == other.height,
            self.records(bodies),
            other.records(bodies),
        ensures
            self == other,
    {
        let w = self.width as int;
        let h = self.height as int;
        assert forall|i: int| 0 <= i < self.tiles.len() implies self.tiles[i] == other.tiles[i] by {
            lemma_grid_of_index(w, h, i);
            let x = i % w;
            let y = i / w;
            assert(self.in_bounds(x, y));
            assert(self.index(x, y) == i);
            assert forall|entity: Entity|
                self.tiles[i].occupants.contains(entity) == other.tiles[i].occupants.contains(
                    entity,
                ) by {
                assert(self.occupants_at(x, y).contains(entity) <==> stands(bodies, entity, x, y));
                assert(other.occupants_at(x, y).contains(entity) <==> stands(bodies, entity, x, y));
            }
            assert(self.tiles[i].occupants =~= other.tiles[i].occupants);
            assert(self.tiles[i].position == other.tiles[i].position);
        }
        assert(self.tiles =~= other.tiles);
    }
}

/// Wraps `position` onto the grid of `tile_map`: a coordinate at or past
/// the far edge of its axis comes back in by the length of the axis, a
/// negative one goes forward by it.
///
/// A position that left the grid by less than one lap, as every position
/// has after one step, lies on the grid afterwards.
pub fn clamp_position(position: &mut Position, tile_map: &TileMap)
    requires
        tile_map.wf(),
    ensures
        *final(position) == tile_map@.clamped(*old(position)),
        (-tile_map@.width <= old(position).0.x < 2 * tile_map@.width && -tile_map@.height <= old(
            position,
        ).0.y < 2 * tile_map@.height) ==> tile_map@.covers(*final(position)),
{
    let width: i32 = tile_map.width() as i32;
    let height: i32 = tile_map.height() as i32;
    if position.0.x >= width {
        position.0.x = position.0.x - width;
    } else if position.0.x < 0 {
        position.0.x = position.0.x + width;
    }
    if position.0.y >= height {
        position.0.y = position.0.y - height;
    } else if position.0.y < 0 {
        position.0.y = position.0.y + height;
    }
}

/// The grid coordinates `(row, column)` of a map of `width` columns and
/// `height` rows, row by row.
///
/// Calls `itertools::Itertools::cartesian_product` on the range of the rows
/// and the range of the columns and collects what it yields. The contract
/// states the order that the adaptor documents: every element of the first
/// range is paired, in turn, with all elements of the second, so the pair
/// at index `i` is `(i / width, i % width)`.
#[verifier::external_body]
fn grid_coordinates(width: u32, height: u32) -> (cells: Vec<(u32, u32)>)
    requires
        width as int * height as int <= MAX_TILES,
    ensures
        cells@.len() == width as int * height as int,
        forall|i: int|
            0 <= i < cells@.len() ==> #[trigger] cells@[i] == (
                (i / width as int) as u32,
                (i % width as int) as u32,
            ),
{
    (0..height).cartesian_product(0..width).collect()
}

/// The index of the tile of column `x` and row `y` is below the number of
/// tiles, and column and row can be read back from it.
pub proof fn lemma_index_in_grid(width: int, height: int, x: int, y: int)
    requires
        0 <= x < width,
        0 <= y < height,
    ensures
        0 <= y * width + x < width * height,
        (y * width + x) % width == x,
        (y * width + x) / width == y,
{
    assert(0 <= y * width && (y + 1) * width <= height * width) by (nonlinear_arith)
        requires
            0 <= y < height,
            0 < width,
    ;
    assert((y + 1) * width == y * width + width && height * width == width * height)
        by (nonlinear_arith);
    vstd::arithmetic::div_mod::lemma_fundamental_div_mod_converse(y * width + x, width, y, x);
}

/// An index below the number of tiles is the index of the tile of a column
/// and a row of the grid.
pub proof fn lemma_grid_of_index(width: int, height: int, i: int)
    requires
        0 < width,
        0 <= i < width * height,
    ensures
        0 <= i % width < width,
        0 <= i / width < height,
        (i / width) * width + i % width == i,
{
    vstd::arithmetic::div_mod::lemma_fundamental_div_mod(i, width);
    vstd::arithmetic::div_mod::lemma_mod_bound(i, width);
    let q = i / width;
    assert(width * q == q * width) by (nonlinear_arith);
    assert(q < height) by (nonlinear_arith)
        requires
            0 < width,
            q * width <= i,
            i < width * height,
    ;
    assert(0 <= q) by (nonlinear_arith)
        requires
            0 < width,
            0 <= i,
            q * width + width > i,
    ;
}

/// Whether a map can have `width` columns and `height` rows: it has at
/// least one tile and no more than [`MAX_TILES`].
pub open spec fn valid_dimensions(width: u32, height: u32) -> bool {
    0 < width && 0 < height && width * height <= MAX_TILES
}

/// The occupancy index of a grid.
pub struct TileMap {
    tiles: Vec<Tile>,
    size: UVec2,
}

impl View for TileMap {
    type V = TileMapView;

    closed spec fn view(&self) -> TileMapView {
        TileMapView {
            width: self.size.x as nat,
            height: self.size.y as nat,
            tiles: self.tiles@.map_values(|tile: Tile| tile@),
        }
    }
}

impl TileMap {
    /// What holds of every tile map this module hands out.
    pub open spec fn wf(&self) -> bool {
        self@.wf()
    }

    /// A map of `width` columns and `height` rows on which nobody stands.
    ///
    /// Fails with [`ConfigurationError::InvalidDimension`] exactly when the
    /// map would have no tiles, or more than [`MAX_TILES`].
    pub fn empty(width: u32, height: u32) -> (result: Result<TileMap, ConfigurationError>)
        ensures
            result is Err <==> !valid_dimensions(width, height),
            result matches Err(error) ==> error == ConfigurationError::InvalidDimension,
            result matches Ok(map) ==> {
                &&& map.wf()
                &&& map@.width == width
                &&& map@.height == height
                &&& map@.unoccupied()
            },
    {
        if width == 0 || height == 0 {
            return Err(ConfigurationError::InvalidDimension);
        }
        assert(width as int * height as int <= u64::MAX) by (nonlinear_arith)
            requires
                width <= u32::MAX,
                height <= u32::MAX,
        ;
        if (width as u64) * (height as u64) > MAX_TILES as u64 {
            return Err(ConfigurationError::InvalidDimension);
        }
        let cells = grid_coordinates(width, height);
        let mut tiles: Vec<Tile> = Vec::new();
        let mut i: usize = 0;
        while i < cells.len()
            invariant
                0 < width,
                0 < height,
                width as int * height as int <= MAX_TILES,
                cells@.len() == width as int * height as int,
                forall|k: int|
                    0 <= k < cells@.len() ==> #[trigger] cells@[k] == (
                        (k / width as int) as u32,
                        (k % width as int) as u32,
                    ),
                i <= cells.len(),
                tiles@.len() == i,
                forall|k: int|
                    0 <= k < i ==> (#[trigger] tiles@[k])@ == (TileView {
                        position: UVec2 {
                            x: (k % width as int) as u32,
                            y: (k / width as int) as u32,
                        },
                        occupants: Set::empty(),
                    }),
            decreases cells.len() - i,
        {
            let (y, x) = cells[i];
            tiles.push(Tile::new(UVec2::new(x, y)));
            i = i + 1;
        }
        let map = TileMap { tiles, size: UVec2::new(width, height) };
        proof {
            assert(width <= width as int * height as int && height <= width as int * height as int)
                by (nonlinear_arith)
                requires
                    0 < width,
                    0 < height,
            ;
            assert(map@.tiles.len() == width as int * height as int);
            assert forall|k: int| 0 <= k < map@.tiles.len() implies (#[trigger] map@.tiles[k])
                == (TileView {
                position: UVec2 { x: (k % width as int) as u32, y: (k / width as int) as u32 },
                occupants: Set::empty(),
            }) by {
                assert(map@.tiles[k] == map.tiles@[k]@);
            }
        }
        Ok(map)
    }

    /// A map of `width` columns and `height` rows on which nobody stands:
    /// another name of [`TileMap::empty`].
    pub fn new(width: u32, height: u32) -> (result: Result<TileMap, ConfigurationError>)
        ensures
            result is Err <==> !valid_dimensions(width, height),
            result matches Err(error) ==> error == ConfigurationError::InvalidDimension,
            result matches Ok(map) ==> {
                &&& map.wf()
                &&& map@.width == width
                &&& map@.height == height
                &&& map@.unoccupied()
            },
    {
        TileMap::empty(width, height)
    }

    /// The number of columns.
    pub fn width(&self) -> (width: u32)
        ensures
            width == self@.width,
    {
        self.size.x
    }

    /// The number of rows.
    pub fn height(&self) -> (height: u32)
        ensures
            height == self@.height,
    {
        self.size.y
    }

    /// The index of the tile of column `x` and row `y` among the tiles.
    pub fn position_to_index(&self, x: u32, y: u32) -> (i: usize)
        requires
            self.wf(),
            self@.in_bounds(x as int, y as int),
        ensures
            i == self@.index(x as int, y as int),
            i < self@.tiles.len(),
    {
        proof {
            lemma_index_in_grid(self@.width as int, self@.height as int, x as int, y as int);
        }
        y as usize * self.size.x as usize + x as usize
    }

    /// The index of the tile that `position` lies on, if it lies on one.
    pub fn index_of(&self, position: Position) -> (i: Option<usize>)
        requires
            self.wf(),
        ensures
            i is Some <==> self@.covers(position),
            i matches Some(index) ==> index == self@.index_of(position) && index
                < self@.tiles.len(),
    {
        let x: i32 = position.0.x;
        let y: i32 = position.0.y;
        if x < 0 || y < 0 {
            return None;
        }
        let column: u32 = x as u32;
        let row: u32 = y as u32;
        if column < self.size.x && row < self.size.y {
            Some(self.position_to_index(column, row))
        } else {
            None
        }
    }

    /// The tile of column `x` and row `y`, or nothing if the map has no
    /// such tile.
    pub fn tile_at(&self, x: u32, y: u32) -> (tile: Option<&Tile>)
        requires
            self.wf(),
        ensures
            tile is Some <==> self@.in_bounds(x as int, y as int),
            tile matches Some(found) ==> found@ == self@.tiles[self@.index(x as int, y as int)],
    {
        if x < self.size.x && y < self.size.y {
            let i: usize = self.position_to_index(x, y);
            Some(&self.tiles[i])
        } else {
            None
        }
    }

    /// All tiles, row by row, each row from its first column on.
    pub fn tiles(&self) -> (tiles: &[Tile])
        ensures
            tiles@.map_values(|tile: Tile| tile@) == self@.tiles,
    {
        self.tiles.as_slice()
    }

    /// All tiles, open to change, row by row. What is done to a tile is done
    /// to the map; the size of the map stays.
    pub fn tiles_mut(&mut self) -> (tiles: &mut [Tile])
        ensures
            tiles@.map_values(|tile: Tile| tile@) == old(self)@.tiles,
            final(self)@ == (TileMapView {
                tiles: final(tiles)@.map_values(|tile: Tile| tile@),
                ..old(self)@
            }),
    {
        self.tiles.as_mut_slice()
    }

    /// The tile of column `x` and row `y`, open to change, or nothing if the
    /// map has no such tile. What is done to the tile is done to the map.
    pub fn tile_mut_at(&mut self, x: u32, y: u32) -> (tile: Option<&mut Tile>)
        requires
            old(self).wf(),
        ensures
            tile is Some <==> old(self)@.in_bounds(x as int, y as int),
            match tile {
                Some(found) => {
                    &&& found@ == old(self)@.tiles[old(self)@.index(x as int, y as int)]
                    &&& final(self)@ == (TileMapView {
                        tiles: old(self)@.tiles.update(
                            old(self)@.index(x as int, y as int),
                            final(found)@,
                        ),
                        ..old(self)@
                    })
                },
                None => final(self)@ == old(self)@,
            },
    {
        if x < self.size.x && y < self.size.y {
            let i: usize = self.position_to_index(x, y);
            Some(&mut self.tiles[i])
        } else {
            None
        }
    }

    /// The coordinates of the tiles on which nobody stands, row by row.
    pub fn empty_tiles(&self) -> (free: Vec<UVec2>)
        requires
            self.wf(),
        ensures
            free@ == self@.empty_positions(),
    {
        let mut free: Vec<UVec2> = Vec::new();
        let mut i: usize = 0;
        let ghost unoccupied = |tile: TileView| tile.occupants == Set::<Entity>::empty();
        let ghost place = |tile: TileView| tile.position;
        proof {
            reveal(Seq::filter);
            assert(self@.tiles.take(0) =~= Seq::<TileView>::empty());
        }
        while i < self.tiles.len()
            invariant
                i <= self.tiles.len(),
                self@.tiles.len() == self.tiles.len(),
                unoccupied == (|tile: TileView| tile.occupants == Set::<Entity>::empty()),
                place == (|tile: TileView| tile.position),
                free@ == self@.tiles.take(i as int).filter(unoccupied).map_values(place),
            decreases self.tiles.len() - i,
        {
            proof {
                reveal(Seq::filter);
                let prefix = self@.tiles.take(i as int + 1);
                assert(prefix.drop_last() =~= self@.tiles.take(i as int));
                assert(prefix.last() == self@.tiles[i as int]);
                assert(self@.tiles[i as int] == self.tiles@[i as int]@);
                if unoccupied(prefix.last()) {
                    assert(prefix.filter(unoccupied).map_values(place) =~= prefix.drop_last().filter(
                        unoccupied,
                    ).map_values(place).push(prefix.last().position));
                }
            }
            if self.tiles[i].is_empty() {
                free.push(self.tiles[i].position());
            }
            i = i + 1;
        }
        proof {
            assert(self@.tiles.take(i as int) =~= self@.tiles);
        }
        free
    }

    /// Records that `entity` now stands at `new_position`, and no longer at
    /// `old_position` if it stood anywhere.
    ///
    /// A position off the map is passed over: nothing is taken from, or put
    /// on, a tile that does not exist.
    pub fn update(
        &mut self,
        entity: Entity,
        new_position: Position,
        old_position: Option<Position>,
    )
        requires
            old(self).wf(),
        ensures
            final(self).wf(),
            final(self)@ == old(self)@.updated(entity, new_position, old_position),
    {
        if let Some(old) = old_position {
            self.on_remove(entity, old);
        }
        let ghost before = self@;
        if let Some(i) = self.index_of(new_position) {
            self.tiles[i].add_entity(entity);
            proof {
                assert(self@.tiles =~= before.with(entity, new_position).tiles);
            }
        }
    }

    /// Records that `entity`, which last stood at `last_known_position`, is
    /// gone.
    pub fn on_remove(&mut self, entity: Entity, last_known_position: Position)
        requires
            old(self).wf(),
        ensures
            final(self).wf(),
            final(self)@ == old(self)@.without(entity, last_known_position),
    {
        let ghost before = self@;
        if let Some(i) = self.index_of(last_known_position) {
            self.tiles[i].remove_entity(entity);
            proof {
                assert(self@.tiles =~= before.without(entity, last_known_position).tiles);
            }
        }
    }
}

} // verus!
