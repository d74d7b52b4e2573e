//! What a session holds and what an update does to it, on mathematical
//! values, with the laws that hold of every session.

use crate::apple::{Apple, AppleSpawner};
use crate::bush::Bush;
use crate::collision::{
    classified, collisions, ends_game, feeds, head_collisions, lemma_collisions,
    lemma_head_collision_complete, lemma_head_collision_sound, same_tile, CollisionEvent,
    CollisionKind, HeadCollision,
};
use crate::direction::Direction;
use crate::entity::Entity;
use crate::game::config::GameConfig;
use crate::game::report::TickReportView;
use crate::rigid_body::{ids_distinct, knows, lemma_stands_insert, BodyKind, RigidBody};
use crate::snake::{Fragment, SnakeEvent, SnakeView};
use crate::tile_map::{TileMapView, MAX_TILES};
use crate::timer::{Countdown, MoveTimer};
use crate::vector::UVec2;
use vstd::prelude::*;

verus! {

/// What a [`Game`](crate::game::Game) holds, as mathematical values.
#[verifier::ext_equal]
pub struct GameView {
    /// The number of columns of the grid.
    pub width: nat,
    /// The number of rows of the grid.
    pub height: nat,
    pub snake: SnakeView,
    pub apples: Seq<Apple>,
    pub bushes: Seq<Bush>,
    pub move_timer: MoveTimer,
    pub spawner: AppleSpawner,
    /// The identity that the next new actor gets.
    pub next_entity: Entity,
    /// Whether the game has ended.
    pub over: bool,
}

/// The events that tell of those of `hits` that end the game, in their
/// order.
pub open spec fn crashes_told(hits: Seq<HeadCollision>) -> Seq<SnakeEvent> {
    hits.filter(|collision: HeadCollision| collision.kind.is_fatal()).map_values(
        |collision: HeadCollision| SnakeEvent::HeadCollide(collision.other.entity),
    )
}

/// Whether the food known as `entity` was reached in one of `hits`.
pub open spec fn hit(hits: Seq<HeadCollision>, entity: Entity) -> bool {
    exists|k: int|
        0 <= k < hits.len() && (#[trigger] hits[k]).kind == CollisionKind::HeadVsApple
            && hits[k].other.entity == entity
}

impl GameView {
    /// The solid actors of the session: the bushes, the fragments of the
    /// snake from head to tail, and the apples.
    pub open spec fn bodies(self) -> Seq<RigidBody> {
        self.bushes.map_values(|bush: Bush| bush.body()) + self.snake.fragments.map_values(
            |fragment: Fragment| fragment.body(),
        ) + self.apples.map_values(|apple: Apple| apple.body())
    }

    /// The tile map of the session: the map that records the solid actors.
    pub open spec fn map(self) -> TileMapView {
        TileMapView::of(self.width, self.height, self.bodies())
    }

    /// What holds of every session, before and after every update: the
    /// snake lies connected on the grid, no two actors share an identity,
    /// and the identity for the next new actor is not in use.
    pub open spec fn wf(self) -> bool {
        &&& 0 < self.width
        &&& 0 < self.height
        &&& self.width * self.height <= MAX_TILES
        &&& self.snake.wf()
        &&& self.snake.on_grid(self.map())
        &&& self.snake.connected(self.map())
        &&& self.snake.tail_remembered(self.map())
        &&& ids_distinct(self.bodies())
        &&& forall|i: int|
            0 <= i < self.bodies().len() ==> (#[trigger] self.bodies()[i]).entity < self.next_entity
    }

    /// The session that a valid configuration starts, with the visual
    /// seeds `seeds` for the body of the snake.
    pub open spec fn initial(config: GameConfig, seeds: Seq<u16>) -> GameView {
        GameView {
            width: config.width as nat,
            height: config.height as nat,
            snake: SnakeView::laid_out(
                config.snake_direction,
                config.snake_position,
                config.bushes@.len() as u64,
                seeds,
            ),
            apples: Seq::empty(),
            bushes: config.initial_bushes(),
            move_timer: MoveTimer(Countdown::fresh(config.move_period, true)),
            spawner: AppleSpawner {
                timer: Countdown::fresh(config.apple_period, true),
                max_apples: config.max_apples,
                apple_lifetime: config.apple_lifetime,
            },
            next_entity: (config.bushes@.len() + config.snake_length) as u64,
            over: false,
        }
    }

    /// The session after the input was latched: the snake is asked to
    /// turn where a direction is asked for.
    pub open spec fn latched(self, input: Option<Direction>) -> GameView {
        match input {
            Some(direction) => GameView { snake: self.snake.turned(direction), ..self },
            None => self,
        }
    }

    /// The session after the time `elapsed` has passed for the apples:
    /// those whose lifetime ran out are gone.
    pub open spec fn apples_aged(self, elapsed: u64) -> GameView {
        GameView {
            apples: self.apples.map_values(|apple: Apple| apple.aged(elapsed)).filter(
                |apple: Apple| !apple.expired(),
            ),
            ..self
        }
    }

    /// The apples that disappear when the time `elapsed` passes.
    pub open spec fn apples_expired(self, elapsed: u64) -> Seq<Apple> {
        self.apples.map_values(|apple: Apple| apple.aged(elapsed)).filter(
            |apple: Apple| apple.expired(),
        )
    }

    /// The apple that appears when the time `elapsed` passes and `choice`
    /// is the index chosen among the empty tiles, if one appears: an apple
    /// is due and the choice names an empty tile.
    pub open spec fn apple_due(self, elapsed: u64, choice: int) -> Option<Apple> {
        if self.spawner.due(elapsed, self.apples.len()) {
            self.spawner.chosen(self.next_entity, self.map().empty_positions(), choice)
        } else {
            None
        }
    }

    /// The empty tiles among which the tile for a new apple is chosen
    /// during an update: those that are empty once the apples whose
    /// lifetime ran out are gone.
    pub open spec fn free_tiles(self, elapsed: u64, input: Option<Direction>) -> Seq<UVec2> {
        self.latched(input).apples_aged(elapsed).map().empty_positions()
    }

    /// The session after the time `elapsed` has passed for the spawner.
    pub open spec fn apple_spawned(self, elapsed: u64, choice: int) -> GameView {
        match self.apple_due(elapsed, choice) {
            Some(apple) => GameView {
                spawner: self.spawner.ticked(elapsed),
                apples: self.apples.push(apple),
                next_entity: (self.next_entity + 1) as u64,
                ..self
            },
            None => GameView { spawner: self.spawner.ticked(elapsed), ..self },
        }
    }

    /// The collisions of the head of the snake: it shares its tile with
    /// another solid actor.
    pub open spec fn head_hits(self) -> Seq<HeadCollision> {
        head_collisions(collisions(self.bodies()))
    }

    /// Whether the head of the snake collides with an apple.
    pub open spec fn eats(self) -> bool {
        feeds(self.head_hits())
    }

    /// Whether the head of the snake collides with a fragment of the snake
    /// or with a bush.
    pub open spec fn crashes(self) -> bool {
        ends_game(self.head_hits())
    }

    /// The session after the snake moved one tile and was wrapped onto the
    /// grid.
    pub open spec fn snake_moved(self) -> GameView {
        GameView { snake: self.snake.moved().clamped(self.map()), ..self }
    }

    /// The tail that the snake grows when it eats, if it can grow.
    pub open spec fn new_tail(self) -> Option<Fragment> {
        if self.eats() && self.snake.can_grow() {
            Some(self.snake.grown(self.next_entity, 0).tail())
        } else {
            None
        }
    }

    /// The session after the collisions of the head had their effect:
    /// every apple that the head collides with is gone; if there is one,
    /// the snake grows by one fragment, whose body gets the visual seed
    /// `seed`; and if the head collides with a fragment or a bush, the game
    /// is over.
    pub open spec fn collided(self, seed: u16) -> GameView {
        let hits = self.head_hits();
        GameView {
            apples: self.apples.filter(|apple: Apple| !hit(hits, apple.entity)),
            snake: if self.eats() {
                self.snake.grown(self.next_entity, seed)
            } else {
                self.snake
            },
            next_entity: if self.eats() && self.snake.can_grow() {
                (self.next_entity + 1) as u64
            } else {
                self.next_entity
            },
            over: self.crashes(),
            ..self
        }
    }

    /// The session after the time `elapsed` has passed for the snake: when
    /// the move timer runs out the snake moves and the collisions of its
    /// head have their effect.
    pub open spec fn snake_stepped(self, elapsed: u64, seed: u16) -> GameView {
        let waited = GameView { move_timer: MoveTimer(self.move_timer.0.ticked(elapsed)), ..self };
        if self.move_timer.0.fires(elapsed) {
            waited.snake_moved().collided(seed)
        } else {
            waited
        }
    }

    /// The session after one update: `elapsed` is the time that has passed
    /// since the update before, `input` the direction asked for, `seed` the
    /// visual seed for a fragment that the snake grows, and `choice` the
    /// index chosen among the empty tiles for an apple that appears.
    ///
    /// A game that is over stays as it is.
    pub open spec fn stepped(
        self,
        elapsed: u64,
        input: Option<Direction>,
        seed: u16,
        choice: int,
    ) -> GameView {
        if self.over {
            self
        } else {
            self.latched(input).apples_aged(elapsed).apple_spawned(elapsed, choice).snake_stepped(
                elapsed,
                seed,
            )
        }
    }

    /// The apples that the head of the snake collides with.
    pub open spec fn apples_eaten(self) -> Seq<Apple> {
        self.apples.filter(|apple: Apple| hit(self.head_hits(), apple.entity))
    }

    /// The collisions of the head that end the game, each told by what the
    /// head ran into.
    pub open spec fn crash_events(self) -> Seq<SnakeEvent> {
        crashes_told(self.head_hits())
    }

    /// The session after the input was latched, the apples aged and the
    /// spawner was fed: what an update does before the snake has its turn.
    pub open spec fn prepared(self, elapsed: u64, input: Option<Direction>, choice: int) -> GameView {
        self.latched(input).apples_aged(elapsed).apple_spawned(elapsed, choice)
    }

    /// What is reported of the update that [`GameView::stepped`]
    /// describes.
    pub open spec fn reported(
        self,
        elapsed: u64,
        input: Option<Direction>,
        seed: u16,
        choice: int,
    ) -> TickReportView {
        if self.over {
            TickReportView::quiet()
        } else {
            let aged = self.latched(input).apples_aged(elapsed);
            let ready = self.prepared(elapsed, input, choice);
            let moved = ready.move_timer.0.fires(elapsed);
            let arrived = ready.snake_moved();
            TickReportView {
                moved,
                expired: self.latched(input).apples_expired(elapsed),
                spawned: aged.apple_due(elapsed, choice),
                eaten: if moved {
                    arrived.apples_eaten()
                } else {
                    Seq::empty()
                },
                grown: if moved {
                    arrived.new_tail()
                } else {
                    None
                },
                events: if moved {
                    arrived.crash_events()
                } else {
                    Seq::empty()
                },
                game_over: moved && arrived.crashes(),
            }
        }
    }

    /// Snake length monotonicity: an update never takes a fragment from
    /// the snake, and adds exactly one where the snake moved onto an apple.
    pub proof fn lemma_step_length(
        self,
        elapsed: u64,
        input: Option<Direction>,
        seed: u16,
        choice: int,
    )
        requires
            self.wf(),
        ensures
            self.stepped(elapsed, input, seed, choice).snake.fragments.len()
                == self.snake.fragments.len() + (if self.reported(
                elapsed,
                input,
                seed,
                choice,
            ).eaten.len() > 0 {
                1int
            } else {
                0int
            }),
    {
        if !self.over {
            let ready = self.prepared(elapsed, input, choice);
            assert(ready.snake.fragments == self.snake.fragments);
            if ready.move_timer.0.fires(elapsed) {
                let arrived = ready.snake_moved();
                arrived.lemma_eaten_iff_eats();
                assert(arrived.snake.can_grow());
                assert(arrived.snake.fragments.len() == self.snake.fragments.len());
                let waited = GameView {
                    move_timer: MoveTimer(ready.move_timer.0.ticked(elapsed)),
                    ..ready
                };
                assert(waited.snake_moved().snake == arrived.snake);
                assert(waited.snake_moved().bodies() =~= arrived.bodies());
            }
        }
    }

    /// The no-reverse invariant: whatever is asked for, no update turns the
    /// head of the snake to the opposite of the direction it had.
    pub proof fn lemma_step_never_reverses(
        self,
        elapsed: u64,
        input: Option<Direction>,
        seed: u16,
        choice: int,
    )
        requires
            self.wf(),
        ensures
            self.stepped(elapsed, input, seed, choice).snake.head().direction
                != self.snake.head().direction.opposite(),
    {
        if !self.over {
            let ready = self.prepared(elapsed, input, choice);
            assert(ready.snake == self.latched(input).snake);
            match input {
                Some(direction) => {
                    self.snake.lemma_turn_keeps_wf(direction);
                },
                None => {},
            }
            ready.snake.lemma_move_never_reverses();
        }
    }

    /// Where each solid actor stands in the list of them, and that the head
    /// of the snake is the only one of its kind.
    pub proof fn lemma_bodies(self)
        requires
            self.snake.wf(),
        ensures
            self.bodies().len() == self.bushes.len() + self.snake.fragments.len()
                + self.apples.len(),
            forall|k: int|
                0 <= k < self.bushes.len() ==> self.bodies()[k] == (#[trigger] self.bushes[k]).body(),
            forall|i: int|
                0 <= i < self.snake.fragments.len() ==> self.bodies()[self.bushes.len() + i] == (
                #[trigger] self.snake.fragments[i]).body(),
            forall|k: int|
                0 <= k < self.apples.len() ==> self.bodies()[self.bushes.len()
                    + self.snake.fragments.len() + k] == (#[trigger] self.apples[k]).body(),
            forall|a: int|
                0 <= a < self.bodies().len() ==> ((#[trigger] self.bodies()[a]).kind
                    == BodyKind::SnakeHead <==> a == self.bushes.len()),
    {
        let bodies = self.bodies();
        let b = self.bushes.len() as int;
        let n = self.snake.fragments.len() as int;
        assert forall|a: int| 0 <= a < bodies.len() implies ((#[trigger] bodies[a]).kind
            == BodyKind::SnakeHead <==> a == b) by {
            if a < b {
                assert(bodies[a] == self.bushes[a].body());
            } else if a < b + n {
                assert(bodies[a] == self.snake.fragments[a - b].body());
                if 0 < a - b < n - 1 {
                    assert(self.snake.fragments[a - b].kind is Body);
                }
            } else {
                assert(bodies[a] == self.apples[a - b - n].body());
            }
        }
    }

    /// Where a collision of the head comes from: the head of the snake and
    /// another solid actor of the session on the tile of the head.
    proof fn lemma_hit_source(self, x: int) -> (j: int)
        requires
            self.wf(),
            0 <= x < self.head_hits().len(),
        ensures
            0 <= j < self.bodies().len(),
            j != self.bushes.len(),
            same_tile(self.snake.head().position, self.bodies()[j].position),
            CollisionKind::of(BodyKind::SnakeHead, self.bodies()[j].kind) is Some,
            self.head_hits()[x] == (HeadCollision {
                kind: CollisionKind::of(BodyKind::SnakeHead, self.bodies()[j].kind)->0,
                head: self.snake.head().body(),
                other: self.bodies()[j],
            }),
    {
        let bodies = self.bodies();
        let hits = self.head_hits();
        self.lemma_bodies();
        lemma_head_collision_sound(bodies, x);
        let (i, j) = choose|i: int, j: int|
            #![trigger bodies[i], bodies[j]]
            {
                &&& 0 <= i < bodies.len()
                &&& 0 <= j < bodies.len()
                &&& i != j
                &&& same_tile(bodies[i].position, bodies[j].position)
                &&& CollisionKind::of(bodies[i].kind, bodies[j].kind) is Some
                &&& hits[x] == (HeadCollision {
                    kind: CollisionKind::of(bodies[i].kind, bodies[j].kind)->0,
                    head: bodies[i],
                    other: bodies[j],
                })
            };
        assert(bodies[i].kind == BodyKind::SnakeHead);
        assert(i == self.bushes.len());
        assert(bodies[i] == self.snake.fragments[0].body());
        j
    }

    /// A solid actor on the tile of the head that is food, a bush or a
    /// fragment gives a collision of the head.
    proof fn lemma_hit_found(self, j: int)
        requires
            self.wf(),
            0 <= j < self.bodies().len(),
            j != self.bushes.len(),
            same_tile(self.snake.head().position, self.bodies()[j].position),
        ensures
            CollisionKind::of(BodyKind::SnakeHead, self.bodies()[j].kind) is Some,
            exists|x: int|
                0 <= x < self.head_hits().len() && #[trigger] self.head_hits()[x]
                    == (HeadCollision {
                    kind: CollisionKind::of(BodyKind::SnakeHead, self.bodies()[j].kind)->0,
                    head: self.snake.head().body(),
                    other: self.bodies()[j],
                }),
    {
        let bodies = self.bodies();
        let hits = self.head_hits();
        let b = self.bushes.len() as int;
        self.lemma_bodies();
        assert(bodies[b] == self.snake.fragments[0].body());
        assert(bodies[j].kind != BodyKind::SnakeHead);
        lemma_head_collision_complete(bodies, b, j);
        let found = HeadCollision {
            kind: CollisionKind::of(BodyKind::SnakeHead, bodies[j].kind)->0,
            head: bodies[b],
            other: bodies[j],
        };
        let x = choose|x: int| 0 <= x < hits.len() && hits[x] == found;
        assert(hits[x] == found);
    }

    /// An apple is hit exactly when it lies on the tile of the head.
    pub proof fn lemma_apple_is_hit_on_the_tile_of_the_head(self, k: int)
        requires
            self.wf(),
            0 <= k < self.apples.len(),
        ensures
            hit(self.head_hits(), self.apples[k].entity) <==> same_tile(
                self.snake.head().position,
                self.apples[k].position,
            ),
    {
        let bodies = self.bodies();
        let hits = self.head_hits();
        let at = self.bushes.len() + self.snake.fragments.len() + k;
        self.lemma_bodies();
        assert(bodies[at] == self.apples[k].body());
        if same_tile(self.snake.head().position, self.apples[k].position) {
            self.lemma_hit_found(at);
        }
        if hit(hits, self.apples[k].entity) {
            let x = choose|x: int|
                0 <= x < hits.len() && (#[trigger] hits[x]).kind == CollisionKind::HeadVsApple
                    && hits[x].other.entity == self.apples[k].entity;
            let j = self.lemma_hit_source(x);
            if j < at {
                assert(bodies[j].entity != bodies[at].entity);
            } else if at < j {
                assert(bodies[at].entity != bodies[j].entity);
            }
        }
    }

    /// The snake eats exactly when an apple lies on the tile of its head.
    pub proof fn lemma_eats_on_the_tile_of_an_apple(self)
        requires
            self.wf(),
        ensures
            self.eats() <==> exists|k: int|
                0 <= k < self.apples.len() && same_tile(
                    self.snake.head().position,
                    (#[trigger] self.apples[k]).position,
                ),
    {
        let bodies = self.bodies();
        let hits = self.head_hits();
        let b = self.bushes.len() as int;
        let n = self.snake.fragments.len() as int;
        self.lemma_bodies();
        if self.eats() {
            let x = choose|x: int|
                0 <= x < hits.len() && (#[trigger] hits[x]).kind == CollisionKind::HeadVsApple;
            let j = self.lemma_hit_source(x);
            assert(bodies[j].kind == BodyKind::Apple);
            if j < b {
                assert(bodies[j] == self.bushes[j].body());
            } else if j < b + n {
                assert(bodies[j] == self.snake.fragments[j - b].body());
            }
            assert(bodies[j] == self.apples[j - b - n].body());
            assert(same_tile(self.snake.head().position, self.apples[j - b - n].position));
        }
        if exists|k: int|
            0 <= k < self.apples.len() && same_tile(
                self.snake.head().position,
                (#[trigger] self.apples[k]).position,
            ) {
            let k = choose|k: int|
                0 <= k < self.apples.len() && same_tile(
                    self.snake.head().position,
                    (#[trigger] self.apples[k]).position,
                );
            assert(bodies[b + n + k] == self.apples[k].body());
            self.lemma_hit_found(b + n + k);
        }
    }

    /// The game is over exactly when a fragment of the snake behind its
    /// head, or a bush, is on the tile of the head.
    pub proof fn lemma_crashes_on_the_tile_of_an_obstacle(self)
        requires
            self.wf(),
        ensures
            self.crashes() <==> (exists|i: int|
                0 < i < self.snake.fragments.len() && same_tile(
                    self.snake.head().position,
                    (#[trigger] self.snake.fragments[i]).position,
                )) || (exists|k: int|
                0 <= k < self.bushes.len() && same_tile(
                    self.snake.head().position,
                    (#[trigger] self.bushes[k]).position,
                )),
    {
        let bodies = self.bodies();
        let hits = self.head_hits();
        let b = self.bushes.len() as int;
        let n = self.snake.fragments.len() as int;
        let head = self.snake.head();
        self.lemma_bodies();
        if self.crashes() {
            let x = choose|x: int| 0 <= x < hits.len() && (#[trigger] hits[x]).kind.is_fatal();
            let j = self.lemma_hit_source(x);
            assert(bodies[j].kind != BodyKind::Apple);
            if j < b {
                assert(bodies[j] == self.bushes[j].body());
                assert(same_tile(head.position, self.bushes[j].position));
            } else if j < b + n {
                assert(bodies[j] == self.snake.fragments[j - b].body());
                assert(same_tile(head.position, self.snake.fragments[j - b].position));
            } else {
                assert(bodies[j] == self.apples[j - b - n].body());
            }
        }
        if exists|i: int|
            0 < i < self.snake.fragments.len() && same_tile(
                head.position,
                (#[trigger] self.snake.fragments[i]).position,
            ) {
            let i = choose|i: int|
                0 < i < self.snake.fragments.len() && same_tile(
                    head.position,
                    (#[trigger] self.snake.fragments[i]).position,
                );
            assert(bodies[b + i] == self.snake.fragments[i].body());
            self.lemma_hit_found(b + i);
            assert(bodies[b + i].kind == BodyKind::SnakeFragment);
        }
        if exists|k: int|
            0 <= k < self.bushes.len() && same_tile(
                head.position,
                (#[trigger] self.bushes[k]).position,
            ) {
            let k = choose|k: int|
                0 <= k < self.bushes.len() && same_tile(
                    head.position,
                    (#[trigger] self.bushes[k]).position,
                );
            assert(bodies[k] == self.bushes[k].body());
            self.lemma_hit_found(k);
        }
    }

    /// An apple is eaten exactly when the head collides with one.
    pub proof fn lemma_eaten_iff_eats(self)
        ensures
            self.apples_eaten().len() > 0 <==> self.eats(),
    {
        let hits = self.head_hits();
        let events = collisions(self.bodies());
        let eaten = |apple: Apple| hit(hits, apple.entity);
        if self.eats() {
            // The collision with food is a collision with an apple of the
            // session.
            let k = choose|k: int|
                0 <= k < hits.len() && (#[trigger] hits[k]).kind == CollisionKind::HeadVsApple;
            let pick = |event: CollisionEvent| classified(event);
            assert(hits.contains(hits[k]));
            events.lemma_filter_map_contains(pick, hits[k]);
            let event = choose|event: CollisionEvent| #[trigger]
                events.contains(event) && pick(event) == Some(hits[k]);
            lemma_collisions(self.bodies());
            let e = choose|e: int| 0 <= e < events.len() && events[e] == event;
            let (i, j) = choose|i: int, j: int|
                0 <= i < j < self.bodies().len() && same_tile(
                    self.bodies()[i].position,
                    self.bodies()[j].position,
                ) && events[e] == (CollisionEvent {
                    collider: self.bodies()[i],
                    collided: self.bodies()[j],
                });
            let other = hits[k].other;
            let at = if other == self.bodies()[i] { i } else { j };
            assert(self.bodies()[at] == other);
            assert(other.kind == BodyKind::Apple);
            let offset = self.bushes.len() + self.snake.fragments.len();
            assert(at >= offset) by {
                if at < self.bushes.len() {
                    assert(self.bodies()[at] == self.bushes[at].body());
                } else if at < offset {
                    assert(self.bodies()[at] == self.snake.fragments[at - self.bushes.len()].body());
                }
            }
            let apple = self.apples[at - offset];
            assert(self.bodies()[at] == apple.body());
            assert(hit(hits, apple.entity));
            self.apples.lemma_filter_contains(eaten, at - offset);
        }
        if self.apples_eaten().len() > 0 {
            self.apples.lemma_filter_pred(eaten, 0);
            let apple = self.apples_eaten()[0];
            assert(hit(hits, apple.entity));
        }
    }

    /// Tile-map consistency: the tile map of a session records exactly
    /// its solid actors, each on the tile it stands on.
    pub proof fn lemma_map_records_bodies(self)
        requires
            self.wf(),
        ensures
            self.map().wf(),
            self.map().width == self.width,
            self.map().height == self.height,
            self.map().records(self.bodies()),
    {
        TileMapView::lemma_of_records(self.width, self.height, self.bodies());
    }
}

/// The places of a list that a filter keeps: they go up, and each holds
/// what the filter hands out in its turn.
proof fn lemma_filter_places<A>(list: Seq<A>, keep: spec_fn(A) -> bool) -> (places: Seq<int>)
    ensures
        places.len() == list.filter(keep).len(),
        forall|k: int|
            0 <= k < places.len() ==> 0 <= #[trigger] places[k] < list.len() && list.filter(keep)[k]
                == list[places[k]],
        forall|a: int, b: int| 0 <= a < b < places.len() ==> #[trigger] places[a] < #[trigger] places[b],
    decreases list.len(),
{
    reveal(Seq::filter);
    if list.len() == 0 {
        Seq::empty()
    } else {
        let before = lemma_filter_places(list.drop_last(), keep);
        if keep(list.last()) {
            before.push(list.len() - 1)
        } else {
            before
        }
    }
}

impl GameView {
    /// The session that a valid configuration starts is well formed.
    pub proof fn lemma_initial_wf(config: GameConfig, seeds: Seq<u16>)
        requires
            config.error() is None,
            seeds.len() + 2 == config.snake_length,
            config.bushes@.len() + MAX_TILES < u64::MAX,
        ensures
            GameView::initial(config, seeds).wf(),
    {
        let start = GameView::initial(config, seeds);
        let first = config.bushes@.len() as u64;
        config.lemma_fitting_snake_is_short();
        SnakeView::lemma_laid_out_wf(
            config.snake_direction,
            config.snake_position,
            first,
            seeds,
        );
        SnakeView::lemma_laid_out_connected(
            start.map(),
            config.snake_direction,
            config.snake_position,
            first,
            seeds,
        );
        start.lemma_bodies();
        let bodies = start.bodies();
        assert forall|a: int| 0 <= a < bodies.len() implies (#[trigger] bodies[a]).entity == a by {
            if a < start.bushes.len() {
                assert(bodies[a] == start.bushes[a].body());
            } else {
                assert(bodies[a] == start.snake.fragments[a - start.bushes.len()].body());
            }
        }
    }

    /// A session stays well formed when some of its apples go, and the
    /// others change nothing but their lifetime.
    proof fn lemma_fewer_apples_wf(self, apples: Seq<Apple>, places: Seq<int>)
        requires
            self.wf(),
            places.len() == apples.len(),
            forall|k: int|
                0 <= k < places.len() ==> 0 <= #[trigger] places[k] < self.apples.len()
                    && apples[k].entity == self.apples[places[k]].entity,
            forall|a: int, b: int|
                0 <= a < b < places.len() ==> #[trigger] places[a] < #[trigger] places[b],
        ensures
            (GameView { apples, ..self }).wf(),
    {
        let after = GameView { apples, ..self };
        let b = self.bushes.len() as int;
        let n = self.snake.fragments.len() as int;
        let offset = b + n;
        self.lemma_bodies();
        after.lemma_bodies();
        self.snake.lemma_same_grid(self.map(), after.map());
        let was = |a: int| if a < offset { a } else { offset + places[a - offset] };
        assert forall|a: int| 0 <= a < after.bodies().len() implies 0 <= was(a)
            < self.bodies().len() && (#[trigger] after.bodies()[a]).entity
            == self.bodies()[was(a)].entity by {
            if a < b {
                assert(after.bodies()[a] == self.bushes[a].body());
                assert(self.bodies()[a] == self.bushes[a].body());
            } else if a < offset {
                assert(after.bodies()[a] == self.snake.fragments[a - b].body());
                assert(self.bodies()[a] == self.snake.fragments[a - b].body());
            } else {
                let k = a - offset;
                assert(after.bodies()[a] == apples[k].body());
                assert(0 <= places[k] < self.apples.len());
                assert(self.bodies()[offset + places[k]] == self.apples[places[k]].body());
            }
        }
        assert forall|x: int, y: int| 0 <= x < y < after.bodies().len() implies (
        #[trigger] after.bodies()[x]).entity != (#[trigger] after.bodies()[y]).entity by {
            assert(after.bodies()[x].entity == self.bodies()[was(x)].entity);
            assert(after.bodies()[y].entity == self.bodies()[was(y)].entity);
            if x >= offset {
                assert(places[x - offset] < places[y - offset]);
            } else if y >= offset {
                assert(0 <= places[y - offset]);
            }
            assert(was(x) < was(y));
            assert(self.bodies()[was(x)].entity != self.bodies()[was(y)].entity);
        }
        assert forall|a: int| 0 <= a < after.bodies().len() implies (
        #[trigger] after.bodies()[a]).entity < after.next_entity by {
            assert(after.bodies()[a].entity == self.bodies()[was(a)].entity);
            assert(self.bodies()[was(a)].entity < self.next_entity);
        }
    }

    /// A session stays well formed when a new actor with the next identity
    /// joins its apples.
    proof fn lemma_one_more_apple_wf(self, apple: Apple)
        requires
            self.wf(),
            apple.entity == self.next_entity,
            self.next_entity < u64::MAX,
        ensures
            (GameView {
                apples: self.apples.push(apple),
                next_entity: (self.next_entity + 1) as u64,
                ..self
            }).wf(),
    {
        let after = GameView {
            apples: self.apples.push(apple),
            next_entity: (self.next_entity + 1) as u64,
            ..self
        };
        self.lemma_bodies();
        after.lemma_bodies();
        self.snake.lemma_same_grid(self.map(), after.map());
        assert(after.bodies() =~= self.bodies().push(apple.body()));
        assert forall|x: int, y: int| 0 <= x < y < after.bodies().len() implies (
        #[trigger] after.bodies()[x]).entity != (#[trigger] after.bodies()[y]).entity by {
            if y < self.bodies().len() {
                assert(self.bodies()[x].entity != self.bodies()[y].entity);
            } else {
                assert(self.bodies()[x].entity < self.next_entity);
            }
        }
        assert forall|a: int| 0 <= a < after.bodies().len() implies (
        #[trigger] after.bodies()[a]).entity < after.next_entity by {
            if a < self.bodies().len() {
                assert(self.bodies()[a].entity < self.next_entity);
            }
        }
    }

    /// Latching the input keeps a session well formed.
    pub proof fn lemma_latched_wf(self, input: Option<Direction>)
        requires
            self.wf(),
        ensures
            self.latched(input).wf(),
    {
        match input {
            Some(direction) => {
                let after = self.latched(input);
                self.snake.lemma_turn_keeps_wf(direction);
                assert(after.bodies() =~= self.bodies());
                assert(after.snake.tail() == self.snake.tail());
            },
            None => {},
        }
    }

    /// Letting apples age and disappear keeps a session well formed.
    pub proof fn lemma_apples_aged_wf(self, elapsed: u64)
        requires
            self.wf(),
        ensures
            self.apples_aged(elapsed).wf(),
    {
        let aged = self.apples.map_values(|apple: Apple| apple.aged(elapsed));
        let places = lemma_filter_places(aged, |apple: Apple| !apple.expired());
        self.lemma_fewer_apples_wf(self.apples_aged(elapsed).apples, places);
    }

    /// Letting an apple appear keeps a session well formed.
    pub proof fn lemma_apple_spawned_wf(self, elapsed: u64, choice: int)
        requires
            self.wf(),
            self.next_entity < u64::MAX,
        ensures
            self.apple_spawned(elapsed, choice).wf(),
    {
        let ticked = GameView { spawner: self.spawner.ticked(elapsed), ..self };
        assert(ticked.bodies() =~= self.bodies());
        match self.apple_due(elapsed, choice) {
            Some(apple) => {
                ticked.lemma_one_more_apple_wf(apple);
            },
            None => {},
        }
    }

    /// Moving the snake and wrapping it onto the grid keeps a session well
    /// formed: the snake lies connected on the grid again.
    pub proof fn lemma_snake_moved_wf(self)
        requires
            self.wf(),
        ensures
            self.snake_moved().wf(),
    {
        let after = self.snake_moved();
        self.lemma_map_records_bodies();
        self.snake.lemma_move_keeps_connected(self.map());
        after.snake.lemma_same_grid(self.map(), after.map());
        self.lemma_bodies();
        after.lemma_bodies();
        assert forall|a: int| 0 <= a < after.bodies().len() implies (
        #[trigger] after.bodies()[a]).entity == self.bodies()[a].entity by {
            let b = self.bushes.len() as int;
            let n = self.snake.fragments.len() as int;
            if a < b {
                assert(after.bodies()[a] == self.bushes[a].body());
                assert(self.bodies()[a] == self.bushes[a].body());
            } else if a < b + n {
                assert(after.bodies()[a] == after.snake.fragments[a - b].body());
                assert(self.bodies()[a] == self.snake.fragments[a - b].body());
            } else {
                assert(after.bodies()[a] == self.apples[a - b - n].body());
                assert(self.bodies()[a] == self.apples[a - b - n].body());
            }
        }
        assert forall|x: int, y: int| 0 <= x < y < after.bodies().len() implies (
        #[trigger] after.bodies()[x]).entity != (#[trigger] after.bodies()[y]).entity by {
            assert(self.bodies()[x].entity != self.bodies()[y].entity);
        }
        assert forall|a: int| 0 <= a < after.bodies().len() implies (
        #[trigger] after.bodies()[a]).entity < after.next_entity by {
            assert(self.bodies()[a].entity < self.next_entity);
        }
    }

    /// Letting the collisions of the head have their effect keeps a
    /// session well formed.
    pub proof fn lemma_collided_wf(self, seed: u16)
        requires
            self.wf(),
            self.next_entity < u64::MAX,
        ensures
            self.collided(seed).wf(),
    {
        let hits = self.head_hits();
        let left = self.apples.filter(|apple: Apple| !hit(hits, apple.entity));
        let places = lemma_filter_places(self.apples, |apple: Apple| !hit(hits, apple.entity));
        let fed = GameView { apples: left, ..self };
        self.lemma_fewer_apples_wf(left, places);
        let after = self.collided(seed);
        if self.eats() && self.snake.can_grow() {
            let grown = GameView {
                snake: fed.snake.grown(fed.next_entity, seed),
                next_entity: (fed.next_entity + 1) as u64,
                ..fed
            };
            assert(after == (GameView { over: self.crashes(), ..grown }));
            fed.lemma_map_records_bodies();
            fed.snake.lemma_grow_keeps_connected(fed.map(), fed.next_entity, seed);
            grown.snake.lemma_same_grid(fed.map(), grown.map());
            fed.lemma_bodies();
            grown.lemma_bodies();
            let b = fed.bushes.len() as int;
            let n = fed.snake.fragments.len() as int;
            let tail = grown.snake.tail();
            assert(grown.snake.fragments.map_values(|fragment: Fragment| fragment.body())
                =~= fed.snake.fragments.map_values(|fragment: Fragment| fragment.body()).push(
                tail.body(),
            ));
            assert(grown.bodies() =~= fed.bodies().insert(b + n, tail.body()));
            assert(!knows(fed.bodies(), tail.entity)) by {
                if knows(fed.bodies(), tail.entity) {
                    let k = choose|k: int|
                        0 <= k < fed.bodies().len() && (#[trigger] fed.bodies()[k]).entity
                            == tail.entity;
                    assert(fed.bodies()[k].entity < fed.next_entity);
                }
            }
            lemma_stands_insert(fed.bodies(), b + n, tail.body(), 0, 0, 0);
            assert forall|a: int| 0 <= a < grown.bodies().len() implies (
            #[trigger] grown.bodies()[a]).entity < grown.next_entity by {
                if a < b + n {
                    assert(fed.bodies()[a].entity < fed.next_entity);
                } else if a > b + n {
                    assert(fed.bodies()[a - 1].entity < fed.next_entity);
                }
            }
            assert(after.bodies() =~= grown.bodies());
            after.snake.lemma_same_grid(grown.map(), after.map());
        } else {
            assert(after == (GameView { over: self.crashes(), ..fed }));
            assert(after.bodies() =~= fed.bodies());
            after.snake.lemma_same_grid(fed.map(), after.map());
        }
    }

    /// Every update keeps a session well formed. With
    /// [`GameView::lemma_map_records_bodies`] this is tile-map consistency
    /// and segment adjacency for all ticks: after every update the tile map
    /// records exactly the solid actors, each on the tile it stands on, and
    /// the snake lies connected on the grid.
    pub proof fn lemma_stepped_wf(
        self,
        elapsed: u64,
        input: Option<Direction>,
        seed: u16,
        choice: int,
    )
        requires
            self.wf(),
            self.next_entity < u64::MAX - 1,
        ensures
            self.stepped(elapsed, input, seed, choice).wf(),
            self.stepped(elapsed, input, seed, choice).width == self.width,
            self.stepped(elapsed, input, seed, choice).height == self.height,
            self.stepped(elapsed, input, seed, choice).bushes == self.bushes,
    {
        if !self.over {
            let latched = self.latched(input);
            self.lemma_latched_wf(input);
            let aged = latched.apples_aged(elapsed);
            latched.lemma_apples_aged_wf(elapsed);
            let ready = aged.apple_spawned(elapsed, choice);
            aged.lemma_apple_spawned_wf(elapsed, choice);
            let waited = GameView {
                move_timer: MoveTimer(ready.move_timer.0.ticked(elapsed)),
                ..ready
            };
            assert(waited.bodies() =~= ready.bodies());
            if ready.move_timer.0.fires(elapsed) {
                waited.lemma_snake_moved_wf();
                waited.snake_moved().lemma_collided_wf(seed);
            }
        }
    }
}

} // verus!
