//! The session: the values that the model speaks of, kept in step with a
//! tile map.

use crate::apple::{Apple, AppleSpawner};
use crate::bush::Bush;
use crate::collision::{
    detect_collision, detect_head_collision, game_over, has_eaten, CollisionKind, HeadCollision,
};
use crate::direction::Direction;
use crate::entity::Entity;
use crate::error::ConfigurationError;
use crate::game::config::GameConfig;
use crate::game::model::{crashes_told, hit, GameView};
use crate::game::report::TickReport;
use crate::number_generator::{random_index, NumberGenerator};
use crate::rigid_body::{ids_distinct, knows, RigidBody};
use crate::snake::{Fragment, Snake, SnakeEvent, SnakeView};
use crate::tile_map::{TileMap, TileMapView, MAX_TILES};
use crate::timer::{Countdown, Lifetime, MoveTimer};
use vstd::prelude::*;

verus! {

/// A session of the game.
pub struct Game {
    tile_map: TileMap,
    snake: Snake,
    apples: Vec<Apple>,
    bushes: Vec<Bush>,
    move_timer: MoveTimer,
    spawner: AppleSpawner,
    generator: NumberGenerator,
    next_entity: Entity,
    over: bool,
}

impl View for Game {
    type V = GameView;

    closed spec fn view(&self) -> GameView {
        GameView {
            width: self.tile_map@.width,
            height: self.tile_map@.height,
            snake: self.snake@,
            apples: self.apples@,
            bushes: self.bushes@,
            move_timer: self.move_timer,
            spawner: self.spawner,
            next_entity: self.next_entity,
            over: self.over,
        }
    }
}

impl Game {
    /// What holds of every session this module hands out: what holds of
    /// its view, and its tile map is the map of its solid actors.
    pub closed spec fn wf(&self) -> bool {
        &&& self@.wf()
        &&& self.tile_map.wf()
        &&& self.tile_map@.records(self@.bodies())
        &&& self.generator.wf()
    }

    /// Whether the tile map records the bushes, the fragments and the
    /// apples `apples`, which all have distinct identities below the one
    /// that the next new actor gets.
    spec fn indexes(&self, apples: Seq<Apple>) -> bool {
        let bodies = (GameView { apples, ..self@ }).bodies();
        &&& self.tile_map.wf()
        &&& self.tile_map@.records(bodies)
        &&& ids_distinct(bodies)
        &&& forall|i: int| 0 <= i < bodies.len() ==> (#[trigger] bodies[i]).entity < self.next_entity
    }

    /// Whether `seed` is a visual seed that the session may give to a
    /// fragment.
    pub closed spec fn admits(&self, seed: u16) -> bool {
        self.generator.admits(seed)
    }

    /// The tile map that the session keeps.
    pub closed spec fn tile_map_view(&self) -> TileMapView {
        self.tile_map@
    }

    /// Tile-map consistency: the tile map that a session keeps records
    /// exactly its solid actors, each on the tile it stands on.
    pub proof fn lemma_wf(&self)
        requires
            self.wf(),
        ensures
            self@.wf(),
            self.tile_map_view() == self@.map(),
            self.tile_map_view().wf(),
            self.tile_map_view().records(self@.bodies()),
    {
        self@.lemma_map_records_bodies();
        self.tile_map@.lemma_records_is_of(self@.bodies());
    }

    /// Starts a session with the visual seeds `seeds` for the body of the
    /// snake, one for each fragment between head and tail.
    ///
    /// Fails with the error of the configuration, if it has one, and with
    /// [`ConfigurationError::InvalidLength`] if the number of seeds is not
    /// that of the body fragments.
    pub fn with_seeds(config: GameConfig, seeds: &Vec<u16>, generator: NumberGenerator) -> (result:
        Result<Game, ConfigurationError>)
        requires
            config.bushes@.len() + MAX_TILES < u64::MAX,
            generator.wf(),
        ensures
            match result {
                Ok(game) => {
                    &&& config.error() is None
                    &&& seeds@.len() + 2 == config.snake_length
                    &&& game.wf()
                    &&& game@ == GameView::initial(config, seeds@)
                    &&& forall|seed: u16| game.admits(seed) == generator.admits(seed)
                },
                Err(error) => if config.error() is Some {
                    config.error() == Some(error)
                } else {
                    seeds@.len() + 2 != config.snake_length && error
                        == ConfigurationError::InvalidLength
                },
            },
    {
        match config.check() {
            Some(error) => {
                return Err(error);
            },
            None => {},
        }
        proof {
            config.lemma_fitting_snake_is_short();
        }
        if seeds.len() != config.snake_length - 2 {
            return Err(ConfigurationError::InvalidLength);
        }
        let mut tile_map = match TileMap::empty(config.width, config.height) {
            Ok(tile_map) => tile_map,
            Err(error) => {
                return Err(error);
            },
        };
        let ghost goal = GameView::initial(config, seeds@);
        let ghost bush_bodies = goal.bushes.map_values(|bush: Bush| bush.body());
        let ghost fragment_bodies = goal.snake.fragments.map_values(
            |fragment: Fragment| fragment.body(),
        );
        proof {
            tile_map@.lemma_unoccupied_records_nobody();
            assert(bush_bodies.take(0) =~= Seq::<RigidBody>::empty());
        }
        let mut bushes: Vec<Bush> = Vec::new();
        let count: usize = config.bushes.len();
        let mut k: usize = 0;
        while k < count
            invariant
                k <= count,
                count == config.bushes@.len(),
                config.bushes@.len() + MAX_TILES < u64::MAX,
                goal.bushes == config.initial_bushes(),
                bush_bodies == goal.bushes.map_values(|bush: Bush| bush.body()),
                bushes@ == goal.bushes.take(k as int),
                tile_map.wf(),
                tile_map@.width == config.width,
                tile_map@.height == config.height,
                tile_map@.records(bush_bodies.take(k as int)),
            decreases count - k,
        {
            let bush = Bush { entity: k as u64, position: config.bushes[k] };
            proof {
                tile_map@.lemma_add_keeps_records(bush_bodies.take(k as int), k as int, bush.body());
                tile_map@.lemma_updated_wf(bush.entity, bush.position, None);
                assert(bush_bodies.take(k as int).insert(k as int, bush.body())
                    =~= bush_bodies.take(k as int + 1));
            }
            tile_map.update(bush.entity, bush.position, None);
            bushes.push(bush);
            k = k + 1;
            proof {
                assert(bushes@ =~= goal.bushes.take(k as int));
            }
        }
        proof {
            assert(bush_bodies.take(count as int) =~= bush_bodies);
            assert(bushes@ =~= goal.bushes);
        }
        let first_entity: Entity = count as u64;
        let snake = Snake::from_seeds(
            config.snake_direction,
            config.snake_position,
            first_entity,
            seeds,
        );
        let length: usize = snake.len();
        let mut i: usize = 0;
        proof {
            assert(fragment_bodies.take(0) =~= Seq::<RigidBody>::empty());
            assert(bush_bodies + fragment_bodies.take(0) =~= bush_bodies);
        }
        while i < length
            invariant
                i <= length,
                length == snake@.fragments.len(),
                snake@ == goal.snake,
                fragment_bodies == goal.snake.fragments.map_values(
                    |fragment: Fragment| fragment.body(),
                ),
                tile_map.wf(),
                tile_map@.width == config.width,
                tile_map@.height == config.height,
                tile_map@.records(bush_bodies + fragment_bodies.take(i as int)),
            decreases length - i,
        {
            let fragment = snake.fragments()[i];
            proof {
                let so_far = bush_bodies + fragment_bodies.take(i as int);
                tile_map@.lemma_add_keeps_records(so_far, so_far.len() as int, fragment.body());
                tile_map@.lemma_updated_wf(fragment.entity, fragment.position, None);
                assert(so_far.insert(so_far.len() as int, fragment.body()) =~= bush_bodies
                    + fragment_bodies.take(i as int + 1));
            }
            tile_map.update(fragment.entity, fragment.position, None);
            i = i + 1;
        }
        let next_entity: Entity = first_entity + length as u64;
        let game = Game {
            tile_map,
            snake,
            apples: Vec::new(),
            bushes,
            move_timer: MoveTimer(Countdown::new(config.move_period, true)),
            spawner: AppleSpawner::new(config.apple_period, config.max_apples, config.apple_lifetime),
            generator,
            next_entity,
            over: false,
        };
        proof {
            assert(fragment_bodies.take(length as int) =~= fragment_bodies);
            assert(game@ =~= goal);
            assert(goal.bodies() =~= bush_bodies + fragment_bodies);
            game.tile_map@.lemma_records_is_of(goal.bodies());
            assert(game.tile_map@ == goal.map());
            GameView::lemma_initial_wf(config, seeds@);
        }
        Ok(game)
    }
}

impl Game {
    /// The tile map.
    pub fn tile_map(&self) -> (tile_map: &TileMap)
        ensures
            tile_map@ == self.tile_map_view(),
            self.wf() ==> tile_map.wf() && tile_map@ == self@.map(),
    {
        proof {
            if self.wf() {
                self.lemma_wf();
            }
        }
        &self.tile_map
    }

    /// The snake.
    pub fn snake(&self) -> (snake: &Snake)
        ensures
            snake@ == self@.snake,
            self.wf() ==> snake.wf(),
    {
        &self.snake
    }

    /// The apples that lie on the grid, oldest first.
    pub fn apples(&self) -> (apples: &[Apple])
        ensures
            apples@ == self@.apples,
    {
        self.apples.as_slice()
    }

    /// The bushes.
    pub fn bushes(&self) -> (bushes: &[Bush])
        ensures
            bushes@ == self@.bushes,
    {
        self.bushes.as_slice()
    }

    /// The timer that gates the moves of the snake.
    pub fn move_timer(&self) -> (timer: MoveTimer)
        ensures
            timer == self@.move_timer,
    {
        self.move_timer
    }

    /// The process that lets apples appear.
    pub fn spawner(&self) -> (spawner: AppleSpawner)
        ensures
            spawner == self@.spawner,
    {
        self.spawner
    }

    /// The identity that the next new actor gets.
    pub fn next_entity(&self) -> (entity: Entity)
        ensures
            entity == self@.next_entity,
    {
        self.next_entity
    }

    /// Whether the game has ended.
    pub fn is_over(&self) -> (over: bool)
        ensures
            over == self@.over,
    {
        self.over
    }

    /// Latches the input: asks the snake to turn where a direction is
    /// asked for.
    fn latch(&mut self, input: Option<Direction>)
        requires
            old(self).wf(),
        ensures
            final(self).wf(),
            final(self)@ == old(self)@.latched(input),
            forall|seed: u16| final(self).admits(seed) == old(self).admits(seed),
    {
        match input {
            Some(direction) => {
                proof {
                    self@.snake.lemma_turn_keeps_wf(direction);
                }
                self.snake.turn(direction);
                proof {
                    assert(self@.bodies() =~= old(self)@.bodies());
                    assert(self@.snake.tail() == old(self)@.snake.tail());
                }
            },
            None => {},
        }
    }

    /// Lets the time `elapsed` pass for the apples, takes those whose
    /// lifetime ran out off the grid, and hands them back.
    fn expire_apples(&mut self, elapsed: u64) -> (expired: Vec<Apple>)
        requires
            old(self).wf(),
        ensures
            final(self).wf(),
            final(self)@ == old(self)@.apples_aged(elapsed),
            expired@ == old(self)@.apples_expired(elapsed),
            forall|seed: u16| final(self).admits(seed) == old(self).admits(seed),
    {
        let ghost start = self@;
        let ghost aged = start.apples.map_values(|apple: Apple| apple.aged(elapsed));
        let ghost stays = |apple: Apple| !apple.expired();
        let ghost goes = |apple: Apple| apple.expired();
        let ghost fixed = start.bushes.map_values(|bush: Bush| bush.body())
            + start.snake.fragments.map_values(|fragment: Fragment| fragment.body());
        let count: usize = self.apples.len();
        let mut kept: Vec<Apple> = Vec::new();
        let mut expired: Vec<Apple> = Vec::new();
        let mut i: usize = 0;
        proof {
            reveal(Seq::filter);
            assert(aged.take(0) =~= Seq::<Apple>::empty());
            assert(kept@ + start.apples.skip(0) =~= start.apples);
        }
        while i < count
            invariant
                i <= count,
                count == start.apples.len(),
                self.apples@ == start.apples,
                self@ == start,
                start.wf(),
                self.generator == old(self).generator,
                aged == start.apples.map_values(|apple: Apple| apple.aged(elapsed)),
                stays == (|apple: Apple| !apple.expired()),
                goes == (|apple: Apple| apple.expired()),
                fixed == start.bushes.map_values(|bush: Bush| bush.body())
                    + start.snake.fragments.map_values(|fragment: Fragment| fragment.body()),
                kept@ == aged.take(i as int).filter(stays),
                expired@ == aged.take(i as int).filter(goes),
                self.indexes(kept@ + start.apples.skip(i as int)),
            decreases count - i,
        {
            let mut apple = self.apples[i];
            match apple.lifetime {
                Some(lifetime) => {
                    let mut countdown = lifetime.0;
                    countdown.tick(elapsed);
                    apple.lifetime = Some(Lifetime(countdown));
                },
                None => {},
            }
            let ghost current = kept@ + start.apples.skip(i as int);
            let ghost bodies = fixed + current.map_values(|apple: Apple| apple.body());
            proof {
                reveal(Seq::filter);
                let prefix = aged.take(i as int + 1);
                assert(prefix.drop_last() =~= aged.take(i as int));
                assert(prefix.last() == apple);
                assert(apple == start.apples[i as int].aged(elapsed));
                assert((GameView { apples: current, ..self@ }).bodies() =~= bodies);
                assert(current[kept@.len() as int] == start.apples[i as int]);
                assert(bodies[(fixed.len() + kept@.len()) as int] == apple.body());
            }
            if apple.expired() {
                proof {
                    let at = (fixed.len() + kept@.len()) as int;
                    self.tile_map@.lemma_remove_keeps_records(bodies, at);
                    let rest = kept@ + start.apples.skip(i as int + 1);
                    assert(bodies.remove(at) =~= fixed + rest.map_values(|apple: Apple| apple.body()));
                    assert((GameView { apples: rest, ..self@ }).bodies() =~= bodies.remove(at));
                    assert forall|k: int| 0 <= k < bodies.remove(at).len() implies (
                    #[trigger] bodies.remove(at)[k]).entity < self.next_entity by {
                        if k < at {
                            assert(bodies[k].entity < self.next_entity);
                        } else {
                            assert(bodies[k + 1].entity < self.next_entity);
                        }
                    }
                }
                self.tile_map.on_remove(apple.entity, apple.position);
                expired.push(apple);
            } else {
                kept.push(apple);
                proof {
                    let rest = kept@ + start.apples.skip(i as int + 1);
                    assert(rest.map_values(|apple: Apple| apple.body()) =~= current.map_values(
                        |apple: Apple| apple.body(),
                    ));
                    assert((GameView { apples: rest, ..self@ }).bodies() =~= bodies);
                }
            }
            i = i + 1;
        }
        proof {
            assert(aged.take(count as int) =~= aged);
            assert(kept@ + start.apples.skip(count as int) =~= kept@);
        }
        self.apples = kept;
        proof {
            let after = self@;
            assert(after == (GameView { apples: kept@, ..start }));
            assert(after == start.apples_aged(elapsed));
            self.tile_map@.lemma_records_is_of(after.bodies());
            start.lemma_map_records_bodies();
            start.snake.lemma_same_grid(start.map(), after.map());
        }
        expired
    }
}

/// Whether the food known as `entity` was reached in one of `hits`.
fn was_hit(hits: &[HeadCollision], entity: Entity) -> (found: bool)
    ensures
        found == hit(hits@, entity),
{
    let count: usize = hits.len();
    let mut i: usize = 0;
    while i < count
        invariant
            i <= count,
            count == hits@.len(),
            forall|k: int|
                0 <= k < i ==> !((#[trigger] hits@[k]).kind == CollisionKind::HeadVsApple
                    && hits@[k].other.entity == entity),
        decreases count - i,
    {
        if !hits[i].kind.is_fatal() && hits[i].other.entity == entity {
            return true;
        }
        i = i + 1;
    }
    false
}

impl Game {
    /// The solid actors of the session: the bushes, the fragments of the
    /// snake from head to tail, and the apples.
    pub fn bodies(&self) -> (bodies: Vec<RigidBody>)
        ensures
            bodies@ == self@.bodies(),
    {
        let ghost bush_bodies = self@.bushes.map_values(|bush: Bush| bush.body());
        let ghost fragment_bodies = self@.snake.fragments.map_values(
            |fragment: Fragment| fragment.body(),
        );
        let ghost apple_bodies = self@.apples.map_values(|apple: Apple| apple.body());
        let mut bodies: Vec<RigidBody> = Vec::new();
        let mut i: usize = 0;
        while i < self.bushes.len()
            invariant
                i <= self.bushes@.len(),
                bush_bodies == self@.bushes.map_values(|bush: Bush| bush.body()),
                self.bushes@ == self@.bushes,
                bodies@ == bush_bodies.take(i as int),
            decreases self.bushes.len() - i,
        {
            bodies.push(self.bushes[i].rigid_body());
            i = i + 1;
            proof {
                assert(bodies@ =~= bush_bodies.take(i as int));
            }
        }
        let fragments = self.snake.fragments();
        let mut j: usize = 0;
        proof {
            assert(bush_bodies.take(i as int) =~= bush_bodies);
            assert(bodies@ =~= bush_bodies + fragment_bodies.take(0));
        }
        while j < fragments.len()
            invariant
                j <= fragments@.len(),
                fragments@ == self@.snake.fragments,
                fragment_bodies == self@.snake.fragments.map_values(
                    |fragment: Fragment| fragment.body(),
                ),
                bodies@ == bush_bodies + fragment_bodies.take(j as int),
            decreases fragments.len() - j,
        {
            bodies.push(fragments[j].rigid_body());
            j = j + 1;
            proof {
                assert(bodies@ =~= bush_bodies + fragment_bodies.take(j as int));
            }
        }
        let mut k: usize = 0;
        proof {
            assert(fragment_bodies.take(j as int) =~= fragment_bodies);
            assert(bodies@ =~= bush_bodies + fragment_bodies + apple_bodies.take(0));
        }
        while k < self.apples.len()
            invariant
                k <= self.apples@.len(),
                self.apples@ == self@.apples,
                apple_bodies == self@.apples.map_values(|apple: Apple| apple.body()),
                bodies@ == bush_bodies + fragment_bodies + apple_bodies.take(k as int),
            decreases self.apples.len() - k,
        {
            bodies.push(self.apples[k].rigid_body());
            k = k + 1;
            proof {
                assert(bodies@ =~= bush_bodies + fragment_bodies + apple_bodies.take(k as int));
            }
        }
        proof {
            assert(apple_bodies.take(k as int) =~= apple_bodies);
        }
        bodies
    }

    /// Lets the time `elapsed` pass for the spawner and, where an apple is
    /// due, lets one appear on the empty tile of index `choice`, or on one
    /// picked at random where no choice is given. Hands back the apple
    /// and the index of its tile.
    fn spawn(&mut self, elapsed: u64, choice: Option<usize>) -> (spawned: (Option<Apple>, Ghost<int>))
        requires
            old(self).wf(),
            old(self)@.next_entity < u64::MAX,
        ensures
            final(self).wf(),
            choice matches Some(index) ==> spawned.1@ == index,
            choice is None && old(self)@.map().empty_positions().len() > 0 ==> 0 <= spawned.1@
                < old(self)@.map().empty_positions().len(),
            final(self)@ == old(self)@.apple_spawned(elapsed, spawned.1@),
            spawned.0 == old(self)@.apple_due(elapsed, spawned.1@),
            forall|seed: u16| final(self).admits(seed) == old(self).admits(seed),
    {
        let ghost start = self@;
        proof {
            self.lemma_wf();
        }
        let due = self.spawner.tick(elapsed, self.apples.len());
        if !due {
            proof {
                assert(self@.bodies() =~= start.bodies());
            }
            let ghost any: int = match choice {
                Some(index) => index as int,
                None => 0,
            };
            return (None, Ghost(any));
        }
        let free = self.tile_map.empty_tiles();
        proof {
            self.tile_map@.lemma_empty_positions();
        }
        let index: usize = match choice {
            Some(index) => index,
            None => match random_index(free.len()) {
                Some(index) => index,
                None => 0,
            },
        };
        match self.spawner.pick(self.next_entity, free.as_slice(), index) {
            Some(apple) => {
                proof {
                    let bodies = start.bodies();
                    self.tile_map@.lemma_add_keeps_records(bodies, bodies.len() as int, apple.body());
                    assert(!knows(bodies, apple.entity)) by {
                        if knows(bodies, apple.entity) {
                            let k = choose|k: int|
                                0 <= k < bodies.len() && (#[trigger] bodies[k]).entity
                                    == apple.entity;
                            assert(bodies[k].entity < start.next_entity);
                        }
                    }
                }
                self.tile_map.update(apple.entity, apple.position, None);
                self.apples.push(apple);
                self.next_entity = self.next_entity + 1;
                proof {
                    let after = self@;
                    let bodies = start.bodies();
                    assert(after.bodies() =~= bodies.insert(bodies.len() as int, apple.body()));
                    assert(after == start.apple_spawned(elapsed, index as int));
                    assert forall|k: int| 0 <= k < after.bodies().len() implies (
                    #[trigger] after.bodies()[k]).entity < after.next_entity by {
                        if k < bodies.len() {
                            assert(bodies[k].entity < start.next_entity);
                        }
                    }
                    self.tile_map@.lemma_records_is_of(after.bodies());
                    start.lemma_map_records_bodies();
                    start.snake.lemma_same_grid(start.map(), after.map());
                }
                (Some(apple), Ghost(index as int))
            },
            None => {
                proof {
                    assert(self@.bodies() =~= start.bodies());
                }
                (None, Ghost(index as int))
            },
        }
    }
}

impl Game {
    /// Moves the snake one tile, wraps it onto the grid and refreshes the
    /// tile map.
    fn move_snake(&mut self)
        requires
            old(self).wf(),
        ensures
            final(self).wf(),
            final(self)@ == old(self)@.snake_moved(),
            forall|seed: u16| final(self).admits(seed) == old(self).admits(seed),
    {
        let ghost start = self@;
        let ghost before = start.snake;
        let ghost after = before.moved().clamped(start.map());
        let ghost bush_bodies = start.bushes.map_values(|bush: Bush| bush.body());
        let ghost apple_bodies = start.apples.map_values(|apple: Apple| apple.body());
        proof {
            self.lemma_wf();
            start.map().lemma_step_then_clamp_is_covered(
                before.head().position,
                before.resolved_direction(),
            );
            before.lemma_move_keeps_connected(start.map());
        }
        self.snake.advance();
        self.snake.clamp(&self.tile_map);
        let count: usize = self.snake.len();
        let memory = self.snake.last_known_tail();
        let mut i: usize = 0;
        proof {
            assert(start.bodies() =~= bush_bodies + Seq::new(
                count as nat,
                |k: int|
                    if k < 0 {
                        after.fragments[k].body()
                    } else {
                        before.fragments[k].body()
                    },
            ) + apple_bodies);
        }
        while i < count
            invariant
                i <= count,
                count == before.fragments.len(),
                self.snake@ == after,
                after == before.moved().clamped(start.map()),
                memory == after.last_known_tail,
                bush_bodies == start.bushes.map_values(|bush: Bush| bush.body()),
                apple_bodies == start.apples.map_values(|apple: Apple| apple.body()),
                self.bushes@ == start.bushes,
                self.apples@ == start.apples,
                self.next_entity == start.next_entity,
                self.over == start.over,
                self.move_timer == start.move_timer,
                self.spawner == start.spawner,
                self.generator == old(self).generator,
                before.wf(),
                forall|k: int|
                    0 < k < count ==> (#[trigger] after.fragments[k]).position
                        == before.fragments[k - 1].position,
                self.tile_map.wf(),
                self.tile_map@.width == start.width,
                self.tile_map@.height == start.height,
                self.tile_map@.records(
                    bush_bodies + Seq::new(
                        count as nat,
                        |k: int|
                            if k < i {
                                after.fragments[k].body()
                            } else {
                                before.fragments[k].body()
                            },
                    ) + apple_bodies,
                ),
                ids_distinct(
                    bush_bodies + Seq::new(
                        count as nat,
                        |k: int|
                            if k < i {
                                after.fragments[k].body()
                            } else {
                                before.fragments[k].body()
                            },
                    ) + apple_bodies,
                ),
                forall|k: int|
                    0 <= k < start.bodies().len() ==> (#[trigger] start.bodies()[k]).entity
                        < start.next_entity,
            decreases count - i,
        {
            let fragment = self.snake.fragments()[i];
            let old_position = if i + 1 < count {
                self.snake.fragments()[i + 1].position
            } else {
                match memory {
                    Some(tail) => tail.0,
                    None => fragment.position,
                }
            };
            proof {
                let mixed = bush_bodies + Seq::new(
                    count as nat,
                    |k: int|
                        if k < i {
                            after.fragments[k].body()
                        } else {
                            before.fragments[k].body()
                        },
                ) + apple_bodies;
                let next = bush_bodies + Seq::new(
                    count as nat,
                    |k: int|
                        if k < i + 1 {
                            after.fragments[k].body()
                        } else {
                            before.fragments[k].body()
                        },
                ) + apple_bodies;
                let at = bush_bodies.len() + i;
                assert(mixed[at] == before.fragments[i as int].body());
                assert(old_position == before.fragments[i as int].position) by {
                    if i + 1 < count {
                        assert(after.fragments[i + 1].position == before.fragments[i as int].position);
                    }
                }
                self.tile_map@.lemma_update_keeps_records(mixed, at, fragment.position);
                self.tile_map@.lemma_updated_wf(
                    fragment.entity,
                    fragment.position,
                    Some(old_position),
                );
                assert(mixed.update(at, mixed[at].moved_to(fragment.position)) =~= next);
            }
            self.tile_map.update(fragment.entity, fragment.position, Some(old_position));
            i = i + 1;
        }
        proof {
            let arrived = self@;
            let mixed = bush_bodies + Seq::new(
                count as nat,
                |k: int|
                    if k < count {
                        after.fragments[k].body()
                    } else {
                        before.fragments[k].body()
                    },
            ) + apple_bodies;
            assert(arrived.bodies() =~= mixed);
            assert(arrived == start.snake_moved());
            assert forall|k: int| 0 <= k < arrived.bodies().len() implies (
            #[trigger] arrived.bodies()[k]).entity < arrived.next_entity by {
                assert(start.bodies()[k].entity < start.next_entity);
                assert(arrived.bodies()[k].entity == start.bodies()[k].entity);
            }
            self.tile_map@.lemma_records_is_of(arrived.bodies());
            after.lemma_same_grid(start.map(), arrived.map());
        }
    }

    /// Takes the apples that the snake has hit off the grid, and hands
    /// them back.
    fn remove_eaten(&mut self, hits: &Vec<HeadCollision>) -> (eaten: Vec<Apple>)
        requires
            old(self).wf(),
        ensures
            final(self).wf(),
            final(self)@ == (GameView {
                apples: old(self)@.apples.filter(|apple: Apple| !hit(hits@, apple.entity)),
                ..old(self)@
            }),
            eaten@ == old(self)@.apples.filter(|apple: Apple| hit(hits@, apple.entity)),
            forall|seed: u16| final(self).admits(seed) == old(self).admits(seed),
    {
        let ghost start = self@;
        let ghost stays = |apple: Apple| !hit(hits@, apple.entity);
        let ghost goes = |apple: Apple| hit(hits@, apple.entity);
        let ghost fixed = start.bushes.map_values(|bush: Bush| bush.body())
            + start.snake.fragments.map_values(|fragment: Fragment| fragment.body());
        let count: usize = self.apples.len();
        let mut kept: Vec<Apple> = Vec::new();
        let mut eaten: Vec<Apple> = Vec::new();
        let mut i: usize = 0;
        proof {
            reveal(Seq::filter);
            assert(start.apples.take(0) =~= Seq::<Apple>::empty());
            assert(kept@ + start.apples.skip(0) =~= start.apples);
        }
        while i < count
            invariant
                i <= count,
                count == start.apples.len(),
                self.apples@ == start.apples,
                self@ == start,
                start.wf(),
                self.generator == old(self).generator,
                stays == (|apple: Apple| !hit(hits@, apple.entity)),
                goes == (|apple: Apple| hit(hits@, apple.entity)),
                fixed == start.bushes.map_values(|bush: Bush| bush.body())
                    + start.snake.fragments.map_values(|fragment: Fragment| fragment.body()),
                kept@ == start.apples.take(i as int).filter(stays),
                eaten@ == start.apples.take(i as int).filter(goes),
                self.indexes(kept@ + start.apples.skip(i as int)),
            decreases count - i,
        {
            let apple = self.apples[i];
            let ghost current = kept@ + start.apples.skip(i as int);
            let ghost bodies = fixed + current.map_values(|apple: Apple| apple.body());
            proof {
                reveal(Seq::filter);
                let prefix = start.apples.take(i as int + 1);
                assert(prefix.drop_last() =~= start.apples.take(i as int));
                assert(prefix.last() == apple);
                assert((GameView { apples: current, ..self@ }).bodies() =~= bodies);
                assert(current[kept@.len() as int] == start.apples[i as int]);
                assert(bodies[(fixed.len() + kept@.len()) as int] == apple.body());
            }
            if was_hit(hits.as_slice(), apple.entity) {
                proof {
                    let at = (fixed.len() + kept@.len()) as int;
                    self.tile_map@.lemma_remove_keeps_records(bodies, at);
                    let rest = kept@ + start.apples.skip(i as int + 1);
                    assert(bodies.remove(at) =~= fixed + rest.map_values(|apple: Apple| apple.body()));
                    assert((GameView { apples: rest, ..self@ }).bodies() =~= bodies.remove(at));
                    assert forall|k: int| 0 <= k < bodies.remove(at).len() implies (
                    #[trigger] bodies.remove(at)[k]).entity < self.next_entity by {
                        if k < at {
                            assert(bodies[k].entity < self.next_entity);
                        } else {
                            assert(bodies[k + 1].entity < self.next_entity);
                        }
                    }
                }
                self.tile_map.on_remove(apple.entity, apple.position);
                eaten.push(apple);
            } else {
                kept.push(apple);
                proof {
                    let rest = kept@ + start.apples.skip(i as int + 1);
                    assert(rest =~= current);
                }
            }
            i = i + 1;
        }
        proof {
            assert(start.apples.take(count as int) =~= start.apples);
            assert(kept@ + start.apples.skip(count as int) =~= kept@);
        }
        self.apples = kept;
        proof {
            let after = self@;
            assert(after == (GameView { apples: kept@, ..start }));
            self.tile_map@.lemma_records_is_of(after.bodies());
            start.lemma_map_records_bodies();
            start.snake.lemma_same_grid(start.map(), after.map());
        }
        eaten
    }

    /// Lets the snake grow by one fragment, if it can, and hands back the
    /// new tail.
    fn grow_snake(&mut self, seed: u16) -> (tail: Option<Fragment>)
        requires
            old(self).wf(),
            old(self)@.next_entity < u64::MAX,
        ensures
            final(self).wf(),
            final(self)@ == (GameView {
                snake: old(self)@.snake.grown(old(self)@.next_entity, seed),
                next_entity: if old(self)@.snake.can_grow() {
                    (old(self)@.next_entity + 1) as u64
                } else {
                    old(self)@.next_entity
                },
                ..old(self)@
            }),
            tail == (if old(self)@.snake.can_grow() {
                Some(old(self)@.snake.grown(old(self)@.next_entity, seed).tail())
            } else {
                None
            }),
            forall|other: u16| final(self).admits(other) == old(self).admits(other),
    {
        let ghost start = self@;
        let entity: Entity = self.next_entity;
        proof {
            self.lemma_wf();
            start.snake.lemma_grow_keeps_connected(start.map(), entity, seed);
        }
        if !self.snake.grow(entity, seed) {
            return None;
        }
        let tail = self.snake.tail();
        proof {
            let bodies = start.bodies();
            let at = (start.bushes.len() + start.snake.fragments.len()) as int;
            self.tile_map@.lemma_add_keeps_records(bodies, at, tail.body());
            assert(!knows(bodies, tail.entity)) by {
                if knows(bodies, tail.entity) {
                    let k = choose|k: int|
                        0 <= k < bodies.len() && (#[trigger] bodies[k]).entity == tail.entity;
                    assert(bodies[k].entity < start.next_entity);
                }
            }
        }
        self.tile_map.update(tail.entity, tail.position, None);
        self.next_entity = entity + 1;
        proof {
            let after = self@;
            let bodies = start.bodies();
            let at = (start.bushes.len() + start.snake.fragments.len()) as int;
            assert(after.snake.fragments.map_values(|fragment: Fragment| fragment.body())
                =~= start.snake.fragments.map_values(|fragment: Fragment| fragment.body()).push(
                tail.body(),
            ));
            assert(after.bodies() =~= bodies.insert(at, tail.body()));
            assert forall|k: int| 0 <= k < after.bodies().len() implies (
            #[trigger] after.bodies()[k]).entity < after.next_entity by {
                if k < at {
                    assert(bodies[k].entity < start.next_entity);
                } else if k > at {
                    assert(bodies[k - 1].entity < start.next_entity);
                }
            }
            self.tile_map@.lemma_records_is_of(after.bodies());
            after.snake.lemma_same_grid(start.map(), after.map());
        }
        Some(tail)
    }
}

/// The events that tell of those of `hits` that end the game, in their
/// order.
fn head_collide_events(hits: &[HeadCollision]) -> (events: Vec<SnakeEvent>)
    ensures
        events@ == crashes_told(hits@),
{
    let ghost fatal = |collision: HeadCollision| collision.kind.is_fatal();
    let ghost told = |collision: HeadCollision| SnakeEvent::HeadCollide(collision.other.entity);
    let mut events: Vec<SnakeEvent> = Vec::new();
    let mut i: usize = 0;
    proof {
        reveal(Seq::filter);
        assert(hits@.take(0) =~= Seq::<HeadCollision>::empty());
    }
    while i < hits.len()
        invariant
            i <= hits@.len(),
            fatal == (|collision: HeadCollision| collision.kind.is_fatal()),
            told == (|collision: HeadCollision| SnakeEvent::HeadCollide(collision.other.entity)),
            events@ == hits@.take(i as int).filter(fatal).map_values(told),
        decreases hits.len() - i,
    {
        proof {
            reveal(Seq::filter);
            let prefix = hits@.take(i as int + 1);
            assert(prefix.drop_last() =~= hits@.take(i as int));
            assert(prefix.last() == hits@[i as int]);
            if fatal(prefix.last()) {
                assert(prefix.filter(fatal).map_values(told) =~= prefix.drop_last().filter(
                    fatal,
                ).map_values(told).push(told(prefix.last())));
            }
        }
        if hits[i].kind.is_fatal() {
            events.push(SnakeEvent::HeadCollide(hits[i].other.entity));
        }
        i = i + 1;
    }
    proof {
        assert(hits@.take(i as int) =~= hits@);
    }
    events
}

impl Game {
    /// Detects the collisions of the head and lets them have their effect:
    /// the apples that were hit are eaten, the snake grows if there was
    /// one, and the game is over if a fragment or a bush was hit. Where
    /// `seed` is not given, the visual seed of a new fragment is drawn at
    /// random. Hands back the apples eaten, the new tail, the collisions
    /// that end the game, whether there is one, and the seed that was
    /// used.
    fn resolve_collisions(&mut self, seed: Option<u16>) -> (outcome: (
        Vec<Apple>,
        Option<Fragment>,
        Vec<SnakeEvent>,
        bool,
        Ghost<u16>,
    ))
        requires
            old(self).wf(),
            old(self)@.next_entity < u64::MAX,
        ensures
            final(self).wf(),
            seed matches Some(given) ==> outcome.4@ == given,
            seed is None && outcome.1 is Some ==> old(self).admits(outcome.4@),
            final(self)@ == old(self)@.collided(outcome.4@),
            outcome.0@ == old(self)@.apples_eaten(),
            outcome.1 == old(self)@.new_tail(),
            outcome.2@ == old(self)@.crash_events(),
            outcome.3 == old(self)@.crashes(),
            forall|other: u16| final(self).admits(other) == old(self).admits(other),
    {
        let ghost arrived = self@;
        let bodies = self.bodies();
        let collisions = detect_collision(bodies.as_slice());
        let hits = detect_head_collision(collisions.as_slice());
        let eaten = self.remove_eaten(&hits);
        let mut grown: Option<Fragment> = None;
        let ghost mut used_seed: u16 = match seed {
            Some(given) => given,
            None => 0,
        };
        if has_eaten(hits.as_slice()) {
            let drawn: u16 = match seed {
                Some(given) => given,
                None => {
                    let ghost source = self.generator;
                    let drawn = self.generator.generate();
                    proof {
                        assert(self.generator.bounds() == source.bounds());
                        assert forall|other: u16| self.admits(other) == old(self).admits(other) by {
                            assert(self.generator.admits(other) == source.admits(other));
                        }
                    }
                    drawn
                },
            };
            proof {
                used_seed = drawn;
            }
            grown = self.grow_snake(drawn);
            proof {
                assert(arrived.snake.grown(arrived.next_entity, drawn).tail()
                    == arrived.snake.grown(arrived.next_entity, 0).tail());
            }
        }
        let crashed = game_over(hits.as_slice());
        self.over = crashed;
        let events = head_collide_events(hits.as_slice());
        proof {
            assert(arrived.head_hits() == hits@);
            assert(self@ == arrived.collided(used_seed));
        }
        (eaten, grown, events, crashed, Ghost(used_seed))
    }

    /// One update. Where `seed` or `choice` is not given, the visual seed
    /// of a new fragment, or the empty tile for a new apple, is drawn at
    /// random. Hands back the report with the seed and the choice that
    /// were used.
    fn frame(
        &mut self,
        elapsed: u64,
        input: Option<Direction>,
        seed: Option<u16>,
        choice: Option<usize>,
    ) -> (outcome: (TickReport, Ghost<u16>, Ghost<int>))
        requires
            old(self).wf(),
            old(self)@.next_entity < u64::MAX - 1,
        ensures
            final(self).wf(),
            seed matches Some(given) ==> outcome.1@ == given,
            choice matches Some(given) ==> outcome.2@ == given,
            seed is None && outcome.0@.grown is Some ==> old(self).admits(outcome.1@),
            choice is None && !old(self)@.over && old(self)@.free_tiles(elapsed, input).len() > 0
                ==> 0 <= outcome.2@ < old(self)@.free_tiles(elapsed, input).len(),
            final(self)@ == old(self)@.stepped(elapsed, input, outcome.1@, outcome.2@),
            outcome.0@ == old(self)@.reported(elapsed, input, outcome.1@, outcome.2@),
            old(self)@.next_entity <= final(self)@.next_entity <= old(self)@.next_entity + 2,
            forall|other: u16| final(self).admits(other) == old(self).admits(other),
    {
        let ghost start = self@;
        let ghost any_seed: u16 = match seed {
            Some(given) => given,
            None => 0,
        };
        if self.over {
            let ghost any_choice: int = match choice {
                Some(given) => given as int,
                None => 0,
            };
            let report = TickReport {
                moved: false,
                expired: Vec::new(),
                spawned: None,
                eaten: Vec::new(),
                grown: None,
                events: Vec::new(),
                game_over: false,
            };
            return (report, Ghost(any_seed), Ghost(any_choice));
        }
        self.latch(input);
        let expired = self.expire_apples(elapsed);
        let (spawned, chosen) = self.spawn(elapsed, choice);
        let ghost ready = self@;
        assert(ready == start.prepared(elapsed, input, chosen@));
        let fired = self.move_timer.0.tick(elapsed);
        proof {
            assert(self@.bodies() =~= ready.bodies());
        }
        if !fired {
            let report = TickReport {
                moved: false,
                expired,
                spawned,
                eaten: Vec::new(),
                grown: None,
                events: Vec::new(),
                game_over: false,
            };
            return (report, Ghost(any_seed), chosen);
        }
        self.move_snake();
        proof {
            assert(self@.bodies() =~= ready.snake_moved().bodies());
        }
        let (eaten, grown, events, crashed, used_seed) = self.resolve_collisions(seed);
        let report = TickReport {
            moved: true,
            expired,
            spawned,
            eaten,
            grown,
            events,
            game_over: crashed,
        };
        (report, used_seed, chosen)
    }

    /// One update with everything given: `elapsed` is the time that has
    /// passed since the update before, in microseconds, `input` the
    /// direction asked for, `seed` the visual seed for a fragment that the
    /// snake grows, and `choice` the index, among the empty tiles, of the
    /// tile for an apple that appears.
    ///
    /// The update can give out two new identities, which must be left.
    pub fn step(
        &mut self,
        elapsed: u64,
        input: Option<Direction>,
        seed: u16,
        choice: usize,
    ) -> (report: TickReport)
        requires
            old(self).wf(),
            old(self)@.next_entity < u64::MAX - 1,
        ensures
            final(self).wf(),
            final(self)@ == old(self)@.stepped(elapsed, input, seed, choice as int),
            report@ == old(self)@.reported(elapsed, input, seed, choice as int),
            old(self)@.next_entity <= final(self)@.next_entity <= old(self)@.next_entity + 2,
            forall|other: u16| final(self).admits(other) == old(self).admits(other),
    {
        let outcome = self.frame(elapsed, input, Some(seed), Some(choice));
        outcome.0
    }

    /// One update: like [`Game::step`], with a visual seed and an empty
    /// tile that are drawn at random. The seed is one that the generator
    /// of the session admits, and the tile is one of the empty tiles, if
    /// there is one: an apple that is due appears unless the grid is full.
    pub fn tick(&mut self, elapsed: u64, input: Option<Direction>) -> (report: TickReport)
        requires
            old(self).wf(),
            old(self)@.next_entity < u64::MAX - 1,
        ensures
            final(self).wf(),
            exists|seed: u16, choice: int|
                {
                    &&& final(self)@ == #[trigger] old(self)@.stepped(elapsed, input, seed, choice)
                    &&& report@ == old(self)@.reported(elapsed, input, seed, choice)
                    &&& report@.grown is Some ==> old(self).admits(seed)
                    &&& !old(self)@.over && old(self)@.free_tiles(elapsed, input).len() > 0 ==> 0
                        <= choice < old(self)@.free_tiles(elapsed, input).len()
                },
            old(self)@.next_entity <= final(self)@.next_entity <= old(self)@.next_entity + 2,
            forall|other: u16| final(self).admits(other) == old(self).admits(other),
    {
        let outcome = self.frame(elapsed, input, None, None);
        outcome.0
    }

    /// Starts a session. The visual seeds for the body of the snake are
    /// drawn from `generator`, which the session keeps.
    ///
    /// Fails with the error of the configuration exactly when it has one.
    pub fn new(config: GameConfig, generator: NumberGenerator) -> (result: Result<
        Game,
        ConfigurationError,
    >)
        requires
            config.bushes@.len() + MAX_TILES < u64::MAX,
            generator.wf(),
        ensures
            match result {
                Ok(game) => {
                    &&& config.error() is None
                    &&& game.wf()
                    &&& exists|seeds: Seq<u16>|
                        {
                            &&& game@ == #[trigger] GameView::initial(config, seeds)
                            &&& seeds.len() + 2 == config.snake_length
                            &&& forall|i: int|
                                0 <= i < seeds.len() ==> generator.admits(#[trigger] seeds[i])
                        }
                    &&& forall|seed: u16| game.admits(seed) == generator.admits(seed)
                },
                Err(error) => config.error() == Some(error),
            },
    {
        match config.check() {
            Some(error) => {
                return Err(error);
            },
            None => {},
        }
        let mut generator = generator;
        let ghost source = generator;
        let count: usize = config.snake_length - 2;
        let mut seeds: Vec<u16> = Vec::new();
        let mut i: usize = 0;
        while i < count
            invariant
                i <= count,
                seeds@.len() == i,
                generator.wf(),
                generator.bounds() == source.bounds(),
                forall|k: int| 0 <= k < i ==> source.admits(#[trigger] seeds@[k]),
            decreases count - i,
        {
            let seed = generator.generate();
            seeds.push(seed);
            i = i + 1;
        }
        let result = Game::with_seeds(config, &seeds, generator);
        proof {
            if let Ok(game) = &result {
                assert(game@ == GameView::initial(config, seeds@));
            }
        }
        result
    }
}

} // verus!
