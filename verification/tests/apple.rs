use snake_grid::apple::{
    explode_apple, spawn_apple, update_lifetimes, Apple, AppleSpawner, APPLE_LAYER,
};
use snake_grid::bush::Bush;
use snake_grid::position::Position;
use snake_grid::rigid_body::{BodyKind, RigidBody};
use snake_grid::tile_map::TileMap;
use snake_grid::timer::{Countdown, Lifetime};
use snake_grid::vector::UVec2;

fn apple(entity: u64, lifetime: Option<Lifetime>) -> Apple {
    Apple { entity, position: Position::new(1, 1, APPLE_LAYER), lifetime }
}

#[test]
fn an_apple_is_due_when_the_timer_runs_out_and_one_is_missing() {
    let mut spawner = AppleSpawner::new(2_000_000, 3, None);
    assert!(!spawner.tick(1_999_999, 0));
    assert!(spawner.tick(1, 0));
    assert_eq!(spawner.timer.remaining, 2_000_000);
    assert!(!spawner.tick(1_000_000, 0));
    assert!(spawner.tick(1_000_000, 2));
    assert!(!spawner.tick(2_000_000, 3));
    assert!(!spawner.tick(2_000_000, 4));
    assert_eq!(spawner.max_apples, 3);
    assert_eq!(spawner.apple_lifetime, None);
}

#[test]
fn an_apple_lies_on_its_tile_on_the_apple_layer() {
    let spawner = AppleSpawner::new(1, 1, Some(Lifetime::from_seconds(5)));
    let apple = spawner.place(12, UVec2::new(3, 2));
    assert_eq!(
        apple,
        Apple {
            entity: 12,
            position: Position::new(3, 2, 1),
            lifetime: Some(Lifetime(Countdown::new(5_000_000, false))),
        }
    );
    assert_eq!(
        apple.rigid_body(),
        RigidBody { entity: 12, position: Position::new(3, 2, 1), kind: BodyKind::Apple }
    );
    assert!(!apple.expired());
}

#[test]
fn the_choice_picks_among_the_free_tiles() {
    let spawner = AppleSpawner::new(1, 1, None);
    let free = [UVec2::new(0, 0), UVec2::new(2, 1), UVec2::new(3, 3)];
    assert_eq!(spawner.pick(5, &free, 1).unwrap().position, Position::new(2, 1, 1));
    assert_eq!(spawner.pick(5, &free, 2).unwrap().position, Position::new(3, 3, 1));
    assert_eq!(spawner.pick(5, &free, 3), None);
    assert_eq!(spawner.pick(5, &[], 0), None);
}

#[test]
fn an_apple_appears_on_an_empty_tile() {
    let mut map = TileMap::empty(2, 2).unwrap();
    map.update(1, Position::new(0, 0, 1), None);
    map.update(2, Position::new(1, 0, 1), None);
    map.update(3, Position::new(0, 1, 1), None);
    let mut spawner = AppleSpawner::new(100, 1, None);
    assert_eq!(spawn_apple(&mut spawner, 99, 0, &map, 4), None);
    for _ in 0..20 {
        let apple = spawn_apple(&mut spawner, 100, 0, &map, 4).unwrap();
        assert_eq!(apple, Apple { entity: 4, position: Position::new(1, 1, 1), lifetime: None });
    }
    assert_eq!(spawn_apple(&mut spawner, 100, 1, &map, 4), None);
}

#[test]
fn no_apple_appears_on_a_full_grid() {
    let mut map = TileMap::empty(2, 1).unwrap();
    map.update(1, Position::new(0, 0, 1), None);
    map.update(2, Position::new(1, 0, 1), None);
    let mut spawner = AppleSpawner::new(100, 5, None);
    assert_eq!(spawn_apple(&mut spawner, 100, 0, &map, 3), None);
    assert!(spawner.timer.just_finished());
}

#[test]
fn apples_appear_all_over_the_grid() {
    let map = TileMap::empty(4, 4).unwrap();
    let mut spawner = AppleSpawner::new(1, 1, None);
    let mut seen: Vec<Position> = Vec::new();
    for _ in 0..400 {
        let apple = spawn_apple(&mut spawner, 1, 0, &map, 9).unwrap();
        assert!(map.index_of(apple.position).is_some());
        assert_eq!(apple.position.0.z, 1);
        if !seen.contains(&apple.position) {
            seen.push(apple.position);
        }
    }
    assert!(seen.len() > 1);
}

#[test]
fn apples_age_and_explode() {
    let mut apples = vec![
        apple(1, Some(Lifetime(Countdown::new(100, false)))),
        apple(2, None),
        apple(3, Some(Lifetime(Countdown::new(300, false)))),
    ];
    update_lifetimes(&mut apples, 100);
    assert!(apples[0].expired());
    assert!(!apples[1].expired());
    assert!(!apples[2].expired());
    assert_eq!(apples[2].lifetime.unwrap().0.remaining, 200);
    assert_eq!(apples[1], apple(2, None));
    let exploded = explode_apple(&mut apples);
    assert_eq!(exploded.len(), 1);
    assert_eq!(exploded[0].entity, 1);
    let left: Vec<u64> = apples.iter().map(|apple| apple.entity).collect();
    assert_eq!(left, vec![2, 3]);
    update_lifetimes(&mut apples, 100);
    assert!(explode_apple(&mut apples).is_empty());
    update_lifetimes(&mut apples, 100);
    let exploded = explode_apple(&mut apples);
    assert_eq!(exploded.len(), 1);
    assert_eq!(exploded[0].entity, 3);
    assert_eq!(apples, vec![apple(2, None)]);
}

#[test]
fn a_bush_is_an_obstacle() {
    let bush = Bush { entity: 8, position: Position::new(5, 5, 1) };
    assert_eq!(
        bush.rigid_body(),
        RigidBody { entity: 8, position: Position::new(5, 5, 1), kind: BodyKind::Obstacle }
    );
}
