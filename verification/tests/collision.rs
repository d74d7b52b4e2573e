use snake_grid::collision::{
    classify, detect_collision, detect_discrete_collision, detect_head_collision, game_over,
    has_eaten, on_same_tile, CollisionEvent, CollisionKind, DiscreteCollisionEvent, HeadCollision,
};
use snake_grid::position::Position;
use snake_grid::rigid_body::{BodyKind, RigidBody};

fn body(entity: u64, x: i32, y: i32, kind: BodyKind) -> RigidBody {
    RigidBody { entity, position: Position::new(x, y, 1), kind }
}

#[test]
fn the_layer_plays_no_part_in_collisions() {
    assert!(on_same_tile(Position::new(2, 3, 0), Position::new(2, 3, 1)));
    assert!(!on_same_tile(Position::new(2, 3, 1), Position::new(3, 2, 1)));
    assert!(!on_same_tile(Position::new(2, 3, 1), Position::new(2, 4, 1)));
}

#[test]
fn bodies_on_different_tiles_do_not_collide() {
    let bodies = [
        body(1, 0, 0, BodyKind::SnakeHead),
        body(2, 1, 0, BodyKind::SnakeFragment),
        body(3, 0, 1, BodyKind::Apple),
    ];
    assert!(detect_collision(&bodies).is_empty());
    assert!(detect_collision(&[]).is_empty());
    assert!(detect_collision(&bodies[..1]).is_empty());
}

#[test]
fn every_pair_on_one_tile_collides_once() {
    let head = body(1, 2, 2, BodyKind::SnakeHead);
    let fragment = body(2, 3, 2, BodyKind::SnakeFragment);
    let apple = body(3, 2, 2, BodyKind::Apple);
    let bush = body(4, 2, 2, BodyKind::Obstacle);
    let other = body(5, 3, 2, BodyKind::Apple);
    let events = detect_collision(&[head, fragment, apple, bush, other]);
    assert_eq!(
        events,
        vec![
            CollisionEvent::new(head, apple),
            CollisionEvent::new(head, bush),
            CollisionEvent::new(fragment, other),
            CollisionEvent::new(apple, bush),
        ]
    );
}

#[test]
fn collisions_are_told_apart_by_kind() {
    let head = body(1, 2, 2, BodyKind::SnakeHead);
    let fragment = body(2, 2, 2, BodyKind::SnakeFragment);
    let apple = body(3, 2, 2, BodyKind::Apple);
    let bush = body(4, 2, 2, BodyKind::Obstacle);
    let events = detect_collision(&[bush, apple, head, fragment]);
    assert_eq!(events.len(), 6);
    assert_eq!(
        detect_discrete_collision(&events, BodyKind::SnakeHead, BodyKind::Apple),
        vec![DiscreteCollisionEvent(head, apple)]
    );
    assert_eq!(
        detect_discrete_collision(&events, BodyKind::SnakeHead, BodyKind::Obstacle),
        vec![DiscreteCollisionEvent(head, bush)]
    );
    assert_eq!(
        detect_discrete_collision(&events, BodyKind::SnakeHead, BodyKind::SnakeFragment),
        vec![DiscreteCollisionEvent(head, fragment)]
    );
    assert_eq!(
        detect_discrete_collision(&events, BodyKind::Apple, BodyKind::Obstacle),
        vec![DiscreteCollisionEvent(apple, bush)]
    );
    assert_eq!(
        detect_discrete_collision(&events, BodyKind::Obstacle, BodyKind::Apple),
        vec![DiscreteCollisionEvent(bush, apple)]
    );
    assert!(detect_discrete_collision(&events, BodyKind::Apple, BodyKind::Apple).is_empty());
}

#[test]
fn collisions_of_the_head_have_a_meaning() {
    assert_eq!(
        CollisionKind::of(BodyKind::SnakeHead, BodyKind::Apple),
        Some(CollisionKind::HeadVsApple)
    );
    assert_eq!(
        CollisionKind::of(BodyKind::SnakeHead, BodyKind::Obstacle),
        Some(CollisionKind::HeadVsObstacle)
    );
    assert_eq!(
        CollisionKind::of(BodyKind::SnakeHead, BodyKind::SnakeFragment),
        Some(CollisionKind::HeadVsSelf)
    );
    assert_eq!(CollisionKind::of(BodyKind::Apple, BodyKind::SnakeHead), None);
    assert_eq!(CollisionKind::of(BodyKind::SnakeHead, BodyKind::SnakeHead), None);
    assert_eq!(CollisionKind::of(BodyKind::Obstacle, BodyKind::Apple), None);
    assert!(!CollisionKind::HeadVsApple.is_fatal());
    assert!(CollisionKind::HeadVsObstacle.is_fatal());
    assert!(CollisionKind::HeadVsSelf.is_fatal());
}

#[test]
fn an_event_is_classified_whichever_way_round_it_is() {
    let head = body(1, 2, 2, BodyKind::SnakeHead);
    let apple = body(3, 2, 2, BodyKind::Apple);
    let bush = body(4, 2, 2, BodyKind::Obstacle);
    let expected = Some(HeadCollision { kind: CollisionKind::HeadVsApple, head, other: apple });
    assert_eq!(classify(&CollisionEvent::new(head, apple)), expected);
    assert_eq!(classify(&CollisionEvent::new(apple, head)), expected);
    assert_eq!(classify(&CollisionEvent::new(apple, bush)), None);
    assert_eq!(classify(&CollisionEvent::new(apple, apple)), None);
    assert_eq!(
        classify(&CollisionEvent::new(bush, head)),
        Some(HeadCollision { kind: CollisionKind::HeadVsObstacle, head, other: bush })
    );
}

#[test]
fn the_collisions_of_the_head_decide_the_game() {
    let head = body(1, 2, 2, BodyKind::SnakeHead);
    let fragment = body(2, 2, 2, BodyKind::SnakeFragment);
    let apple = body(3, 2, 2, BodyKind::Apple);
    let bush = body(4, 5, 5, BodyKind::Obstacle);
    let far = body(5, 5, 5, BodyKind::Apple);

    let hits = detect_head_collision(&detect_collision(&[bush, head, apple, far]));
    assert_eq!(hits, vec![HeadCollision { kind: CollisionKind::HeadVsApple, head, other: apple }]);
    assert!(has_eaten(&hits));
    assert!(!game_over(&hits));

    let hits = detect_head_collision(&detect_collision(&[bush, head, fragment, apple, far]));
    assert_eq!(
        hits,
        vec![
            HeadCollision { kind: CollisionKind::HeadVsSelf, head, other: fragment },
            HeadCollision { kind: CollisionKind::HeadVsApple, head, other: apple },
        ]
    );
    assert!(has_eaten(&hits));
    assert!(game_over(&hits));

    let hits = detect_head_collision(&detect_collision(&[bush, far, fragment, apple]));
    assert!(hits.is_empty());
    assert!(!has_eaten(&hits));
    assert!(!game_over(&hits));

    let crash = body(6, 2, 2, BodyKind::Obstacle);
    let hits = detect_head_collision(&detect_collision(&[crash, head]));
    assert_eq!(hits, vec![HeadCollision { kind: CollisionKind::HeadVsObstacle, head, other: crash }]);
    assert!(!has_eaten(&hits));
    assert!(game_over(&hits));
}
