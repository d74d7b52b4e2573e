//! Apples: food that appears on empty tiles from time to time and may
//! disappear again when nobody eats it.

use crate::entity::Entity;
use crate::number_generator::random_index;
use crate::position::Position;
use crate::rigid_body::{BodyKind, RigidBody};
use crate::tile_map::{TileMap, MAX_TILES};
use crate::timer::{Countdown, Lifetime};
use crate::vector::{IVec3, UVec2};
use vstd::prelude::*;

verus! {

/// The layer on which apples lie.
pub const APPLE_LAYER: i32 = 1;

/// An apple.
#[derive(Debug, Copy, Clone, PartialEq, Eq, Hash, Structural)]
pub struct Apple {
    /// The identity under which the apple is known to the tile map.
    pub entity: Entity,
    /// Where the apple lies.
    pub position: Position,
    /// The time after which the apple disappears, if it ever does.
    pub lifetime: Option<Lifetime>,
}

impl Apple {
    /// The apple after the time `elapsed` has passed.
    pub open spec fn aged(self, elapsed: u64) -> Apple {
        Apple {
            lifetime: match self.lifetime {
                Some(lifetime) => Some(Lifetime(lifetime.0.ticked(elapsed))),
                None => None,
            },
            ..self
        }
    }

    /// Whether the lifetime of the apple has just run out.
    pub open spec fn spec_expired(&self) -> bool {
        self.lifetime matches Some(lifetime) && lifetime.0.just_finished
    }

    /// The apple as a solid actor.
    pub open spec fn body(self) -> RigidBody {
        RigidBody { entity: self.entity, position: self.position, kind: BodyKind::Apple }
    }

    /// Whether the lifetime of the apple has just run out.
    #[verifier::when_used_as_spec(spec_expired)]
    pub fn expired(&self) -> (expired: bool)
        ensures
            expired == self.spec_expired(),
    {
        match self.lifetime {
            Some(lifetime) => lifetime.0.just_finished(),
            None => false,
        }
    }

    /// The apple as a solid actor.
    pub fn rigid_body(&self) -> (body: RigidBody)
        ensures
            body == self.body(),
    {
        RigidBody { entity: self.entity, position: self.position, kind: BodyKind::Apple }
    }
}

/// The timed process that lets apples appear.
#[derive(Debug, Copy, Clone, PartialEq, Eq, Hash, Structural)]
pub struct AppleSpawner {
    /// Runs out whenever it is time to look whether an apple is missing.
    pub timer: Countdown,
    /// The number of apples that may lie on the grid at once.
    pub max_apples: usize,
    /// The lifetime that every new apple starts with, if apples disappear.
    pub apple_lifetime: Option<Lifetime>,
}

impl AppleSpawner {
    /// A spawner that looks for a missing apple every `period`
    /// microseconds.
    pub fn new(period: u64, max_apples: usize, apple_lifetime: Option<Lifetime>) -> (spawner: Self)
        ensures
            spawner == (AppleSpawner {
                timer: Countdown::fresh(period, true),
                max_apples,
                apple_lifetime,
            }),
    {
        AppleSpawner { timer: Countdown::new(period, true), max_apples, apple_lifetime }
    }

    /// Whether an apple is due after `elapsed` has passed while
    /// `apple_count` apples lie on the grid: the timer runs out and an
    /// apple is missing.
    pub open spec fn due(self, elapsed: u64, apple_count: nat) -> bool {
        self.timer.fires(elapsed) && apple_count < self.max_apples
    }

    /// The spawner after the time `elapsed` has passed.
    pub open spec fn ticked(self, elapsed: u64) -> AppleSpawner {
        AppleSpawner { timer: self.timer.ticked(elapsed), ..self }
    }

    /// The apple that the spawner lets appear on the tile `tile` under the
    /// identity `entity`.
    pub open spec fn apple_at(self, entity: Entity, tile: UVec2) -> Apple {
        Apple {
            entity,
            position: Position(IVec3 { x: tile.x as i32, y: tile.y as i32, z: APPLE_LAYER }),
            lifetime: self.apple_lifetime,
        }
    }

    /// The apple that the spawner lets appear for the choice `choice`
    /// among the free tiles `free`: the apple on the tile of that index, or
    /// none if there is no such tile.
    pub open spec fn chosen(self, entity: Entity, free: Seq<UVec2>, choice: int) -> Option<Apple> {
        if 0 <= choice < free.len() {
            Some(self.apple_at(entity, free[choice]))
        } else {
            None
        }
    }

    /// Lets the time `elapsed` pass and tells whether an apple is due.
    pub fn tick(&mut self, elapsed: u64, apple_count: usize) -> (due: bool)
        ensures
            *final(self) == old(self).ticked(elapsed),
            due == old(self).due(elapsed, apple_count as nat),
    {
        let fired = self.timer.tick(elapsed);
        fired && apple_count < self.max_apples
    }

    /// Makes the apple for the tile `tile`.
    pub fn place(&self, entity: Entity, tile: UVec2) -> (apple: Apple)
        requires
            tile.x <= MAX_TILES,
            tile.y <= MAX_TILES,
        ensures
            apple == self.apple_at(entity, tile),
            apple.position.0.x == tile.x,
            apple.position.0.y == tile.y,
    {
        Apple {
            entity,
            position: Position::new(tile.x as i32, tile.y as i32, APPLE_LAYER),
            lifetime: self.apple_lifetime,
        }
    }

    /// Makes the apple for the choice `choice` among the free tiles
    /// `free`, if there is such a tile.
    pub fn pick(&self, entity: Entity, free: &[UVec2], choice: usize) -> (apple: Option<Apple>)
        requires
            forall|k: int|
                0 <= k < free@.len() ==> (#[trigger] free@[k]).x <= MAX_TILES && free@[k].y
                    <= MAX_TILES,
        ensures
            apple == self.chosen(entity, free@, choice as int),
    {
        if choice < free.len() {
            Some(self.place(entity, free[choice]))
        } else {
            None
        }
    }
}

/// Lets the time `elapsed` pass for every apple.
pub fn update_lifetimes(apples: &mut Vec<Apple>, elapsed: u64)
    ensures
        final(apples)@ == old(apples)@.map_values(|apple: Apple| apple.aged(elapsed)),
{
    let count: usize = apples.len();
    let mut i: usize = 0;
    while i < count
        invariant
            i <= count,
            apples@.len() == count,
            count == old(apples)@.len(),
            forall|k: int| 0 <= k < i ==> #[trigger] apples@[k] == old(apples)@[k].aged(elapsed),
            forall|k: int| i <= k < count ==> #[trigger] apples@[k] == old(apples)@[k],
        decreases count - i,
    {
        let mut apple = apples[i];
        match apple.lifetime {
            Some(lifetime) => {
                let mut countdown = lifetime.0;
                countdown.tick(elapsed);
                apple.lifetime = Some(Lifetime(countdown));
            },
            None => {},
        }
        apples[i] = apple;
        i = i + 1;
    }
    proof {
        assert(apples@ =~= old(apples)@.map_values(|apple: Apple| apple.aged(elapsed)));
    }
}

/// Takes away the apples whose lifetime has just run out, and hands them
/// back. The others stay, in their order.
pub fn explode_apple(apples: &mut Vec<Apple>) -> (exploded: Vec<Apple>)
    ensures
        final(apples)@ == old(apples)@.filter(|apple: Apple| !apple.expired()),
        exploded@ == old(apples)@.filter(|apple: Apple| apple.expired()),
{
    let count: usize = apples.len();
    let mut kept: Vec<Apple> = Vec::new();
    let mut exploded: Vec<Apple> = Vec::new();
    let ghost stays = |apple: Apple| !apple.expired();
    let ghost goes = |apple: Apple| apple.expired();
    let mut i: usize = 0;
    proof {
        reveal(Seq::filter);
        assert(apples@.take(0) =~= Seq::<Apple>::empty());
    }
    while i < count
        invariant
            i <= count,
            apples@ == old(apples)@,
            count == apples@.len(),
            stays == (|apple: Apple| !apple.expired()),
            goes == (|apple: Apple| apple.expired()),
            kept@ == apples@.take(i as int).filter(stays),
            exploded@ == apples@.take(i as int).filter(goes),
        decreases count - i,
    {
        proof {
            reveal(Seq::filter);
            let prefix = apples@.take(i as int + 1);
            assert(prefix.drop_last() =~= apples@.take(i as int));
            assert(prefix.last() == apples@[i as int]);
        }
        let apple = apples[i];
        if apple.expired() {
            exploded.push(apple);
        } else {
            kept.push(apple);
        }
        i = i + 1;
    }
    proof {
        assert(apples@.take(count as int) =~= apples@);
    }
    *apples = kept;
    exploded
}

/// Lets the time `elapsed` pass for the spawner and, where an apple is
/// due, picks one of the empty tiles of `tile_map` at random and hands
/// back the apple for it, known as `entity`. No apple is made where none
/// is due or no tile is empty.
pub fn spawn_apple(
    spawner: &mut AppleSpawner,
    elapsed: u64,
    apple_count: usize,
    tile_map: &TileMap,
    entity: Entity,
) -> (apple: Option<Apple>)
    requires
        tile_map.wf(),
    ensures
        *final(spawner) == old(spawner).ticked(elapsed),
        apple is Some <==> old(spawner).due(elapsed, apple_count as nat)
            && tile_map@.empty_positions().len() > 0,
        apple matches Some(made) ==> exists|choice: int|
            0 <= choice < tile_map@.empty_positions().len() && made == #[trigger] old(
                spawner,
            ).apple_at(entity, tile_map@.empty_positions()[choice]),
{
    if spawner.tick(elapsed, apple_count) {
        let free = tile_map.empty_tiles();
        proof {
            tile_map@.lemma_empty_positions();
        }
        match random_index(free.len()) {
            Some(choice) => {
                let made = spawner.pick(entity, free.as_slice(), choice);
                assert(made == Some(old(spawner).apple_at(entity, free@[choice as int])));
                made
            },
            None => None,
        }
    } else {
        None
    }
}

} // verus!
