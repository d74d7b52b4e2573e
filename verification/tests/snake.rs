use snake_grid::direction::Direction;
use snake_grid::error::ConfigurationError;
use snake_grid::number_generator::{generate_seed, random_index, NumberGenerator, SEED_COUNT};
use snake_grid::position::Position;
use snake_grid::rigid_body::{BodyKind, RigidBody};
use snake_grid::snake::{
    pressed_direction, spawn_snake, update_snake_sprite, update_snake_transform, Fragment, Snake,
    SnakeAction, SnakeEvent, SnakeFragment, SnakeSprite,
};
use snake_grid::tile_map::TileMap;
use snake_grid::vector::IVec3;

fn positions(snake: &Snake) -> Vec<(i32, i32, i32)> {
    snake.fragments().iter().map(|f| (f.position.0.x, f.position.0.y, f.position.0.z)).collect()
}

fn fragment(kind: SnakeFragment, direction: Direction, previous: Option<Direction>) -> Fragment {
    Fragment {
        entity: 1,
        kind,
        position: Position::new(0, 0, 1),
        direction,
        previous_direction: previous,
    }
}

#[test]
fn a_snake_is_laid_out_behind_its_head() {
    let snake = Snake::from_seeds(Direction::Left, Position::new(4, 4, 1), 10, &vec![3, 5]);
    assert_eq!(snake.len(), 4);
    assert_eq!(positions(&snake), vec![(4, 4, 1), (5, 4, 1), (6, 4, 1), (7, 4, 1)]);
    let kinds: Vec<SnakeFragment> = snake.fragments().iter().map(|f| f.kind).collect();
    assert_eq!(
        kinds,
        vec![SnakeFragment::Head, SnakeFragment::Body(3), SnakeFragment::Body(5), SnakeFragment::Tail]
    );
    let entities: Vec<u64> = snake.fragments().iter().map(|f| f.entity).collect();
    assert_eq!(entities, vec![10, 11, 12, 13]);
    assert!(snake.fragments().iter().all(|f| f.direction == Direction::Left));
    assert!(snake.fragments().iter().all(|f| f.previous_direction.is_none()));
    assert_eq!(snake.next_direction(), None);
    assert_eq!(snake.last_known_tail(), None);
    assert_eq!(snake.head().kind, SnakeFragment::Head);
    assert_eq!(snake.tail().position, Position::new(7, 4, 1));
}

#[test]
fn the_shortest_snake_is_a_head_and_a_tail() {
    let snake = Snake::from_seeds(Direction::Down, Position::new(0, 0, 1), 0, &vec![]);
    assert_eq!(snake.len(), 2);
    assert_eq!(positions(&snake), vec![(0, 0, 1), (0, 1, 1)]);
    assert_eq!(snake.head().kind, SnakeFragment::Head);
    assert_eq!(snake.tail().kind, SnakeFragment::Tail);
}

#[test]
fn a_move_shifts_every_fragment_by_one() {
    let mut snake = Snake::from_seeds(Direction::Left, Position::new(4, 4, 1), 0, &vec![9]);
    snake.advance();
    assert_eq!(positions(&snake), vec![(3, 4, 1), (4, 4, 1), (5, 4, 1)]);
    assert_eq!(snake.last_known_tail(), Some((Position::new(6, 4, 1), Direction::Left)));
    assert_eq!(snake.len(), 3);
    assert!(snake.fragments().iter().all(|f| f.previous_direction == Some(Direction::Left)));
    let kinds: Vec<SnakeFragment> = snake.fragments().iter().map(|f| f.kind).collect();
    assert_eq!(kinds, vec![SnakeFragment::Head, SnakeFragment::Body(9), SnakeFragment::Tail]);
}

#[test]
fn a_turn_is_taken_at_the_next_move_and_used_up() {
    let mut snake = Snake::from_seeds(Direction::Left, Position::new(4, 4, 1), 0, &vec![9]);
    assert!(snake.turn(Direction::Up));
    assert_eq!(snake.next_direction(), Some(Direction::Up));
    assert_eq!(snake.head().direction, Direction::Left);
    snake.advance();
    assert_eq!(snake.next_direction(), None);
    assert_eq!(positions(&snake), vec![(4, 5, 1), (4, 4, 1), (5, 4, 1)]);
    let directions: Vec<Direction> = snake.fragments().iter().map(|f| f.direction).collect();
    assert_eq!(directions, vec![Direction::Up, Direction::Left, Direction::Left]);
    assert_eq!(snake.head().previous_direction, Some(Direction::Left));
    snake.advance();
    assert_eq!(positions(&snake), vec![(4, 6, 1), (4, 5, 1), (4, 4, 1)]);
    let directions: Vec<Direction> = snake.fragments().iter().map(|f| f.direction).collect();
    assert_eq!(directions, vec![Direction::Up, Direction::Up, Direction::Left]);
    let previous: Vec<Option<Direction>> =
        snake.fragments().iter().map(|f| f.previous_direction).collect();
    assert_eq!(previous, vec![Some(Direction::Up), Some(Direction::Left), Some(Direction::Left)]);
}

#[test]
fn a_turn_back_is_not_taken_up() {
    let mut snake = Snake::from_seeds(Direction::Left, Position::new(4, 4, 1), 0, &vec![]);
    assert!(!snake.turn(Direction::Right));
    assert_eq!(snake.next_direction(), None);
    assert!(snake.turn(Direction::Down));
    assert!(!snake.turn(Direction::Right));
    assert_eq!(snake.next_direction(), Some(Direction::Down));
    assert!(snake.turn(Direction::Left));
    assert_eq!(snake.next_direction(), Some(Direction::Left));
    snake.advance();
    assert_eq!(snake.head().direction, Direction::Left);
    assert_eq!(snake.head().position, Position::new(3, 4, 1));
}

#[test]
fn the_head_never_reverses() {
    for start in [Direction::Up, Direction::Down, Direction::Right, Direction::Left] {
        for first in [Direction::Up, Direction::Down, Direction::Right, Direction::Left] {
            for second in [Direction::Up, Direction::Down, Direction::Right, Direction::Left] {
                let mut snake = Snake::from_seeds(start, Position::new(0, 0, 1), 0, &vec![1]);
                snake.turn(first);
                snake.turn(second);
                snake.advance();
                assert_ne!(snake.head().direction, start.opposite());
            }
        }
    }
}

#[test]
fn a_snake_grows_where_its_tail_was() {
    let mut snake = Snake::from_seeds(Direction::Left, Position::new(4, 4, 1), 0, &vec![9]);
    assert!(!snake.grow(50, 2));
    assert_eq!(snake.len(), 3);
    snake.advance();
    assert!(snake.grow(50, 2));
    assert_eq!(snake.len(), 4);
    assert_eq!(positions(&snake), vec![(3, 4, 1), (4, 4, 1), (5, 4, 1), (6, 4, 1)]);
    let kinds: Vec<SnakeFragment> = snake.fragments().iter().map(|f| f.kind).collect();
    assert_eq!(
        kinds,
        vec![SnakeFragment::Head, SnakeFragment::Body(9), SnakeFragment::Body(2), SnakeFragment::Tail]
    );
    assert_eq!(
        snake.tail(),
        Fragment {
            entity: 50,
            kind: SnakeFragment::Tail,
            position: Position::new(6, 4, 1),
            direction: Direction::Left,
            previous_direction: None,
        }
    );
    assert_eq!(snake.last_known_tail(), None);
}

#[test]
fn a_snake_grows_once_after_each_move() {
    let mut snake = Snake::from_seeds(Direction::Up, Position::new(2, 2, 1), 0, &vec![]);
    snake.advance();
    assert!(snake.grow(7, 0));
    assert!(!snake.grow(8, 0));
    assert_eq!(snake.len(), 3);
    snake.advance();
    assert!(snake.grow(8, 0));
    assert_eq!(snake.len(), 4);
    assert_eq!(positions(&snake), vec![(2, 4, 1), (2, 3, 1), (2, 2, 1), (2, 1, 1)]);
}

#[test]
fn a_snake_is_wrapped_onto_the_grid() {
    let map = TileMap::empty(4, 4).unwrap();
    let mut snake = Snake::from_seeds(Direction::Right, Position::new(3, 0, 1), 0, &vec![1]);
    snake.advance();
    assert_eq!(positions(&snake), vec![(4, 0, 1), (3, 0, 1), (2, 0, 1)]);
    snake.clamp(&map);
    assert_eq!(positions(&snake), vec![(0, 0, 1), (3, 0, 1), (2, 0, 1)]);
    assert!(snake.turn(Direction::Down));
    snake.advance();
    snake.clamp(&map);
    assert_eq!(positions(&snake), vec![(0, 3, 1), (0, 0, 1), (3, 0, 1)]);
    assert_eq!(snake.last_known_tail(), Some((Position::new(2, 0, 1), Direction::Right)));
}

#[test]
fn a_snake_is_spawned_with_seeds_from_its_generator() {
    let mut generator = NumberGenerator::from_range(0..7);
    let snake =
        spawn_snake(Direction::Down, IVec3::new(4, 5, 1), 4, 100, &mut generator).unwrap();
    assert_eq!(positions(&snake), vec![(4, 5, 1), (4, 6, 1), (4, 7, 1), (4, 8, 1)]);
    assert_eq!(snake.head().kind, SnakeFragment::Head);
    assert_eq!(snake.tail().kind, SnakeFragment::Tail);
    assert_eq!(snake.tail().entity, 103);
    for body in &snake.fragments()[1..3] {
        match body.kind {
            SnakeFragment::Body(seed) => assert!(seed < 7),
            _ => panic!("a fragment between head and tail is a body fragment"),
        }
    }
}

#[test]
fn a_snake_needs_two_fragments() {
    let mut generator = NumberGenerator::from_range(0..7);
    assert!(matches!(
        spawn_snake(Direction::Down, IVec3::new(0, 0, 1), 0, 0, &mut generator),
        Err(ConfigurationError::InvalidLength)
    ));
    assert!(matches!(
        spawn_snake(Direction::Down, IVec3::new(0, 0, 1), 1, 0, &mut generator),
        Err(ConfigurationError::InvalidLength)
    ));
    assert!(spawn_snake(Direction::Down, IVec3::new(0, 0, 1), 2, 0, &mut generator).is_ok());
}

#[test]
fn numbers_are_drawn_from_the_range() {
    let mut generator = NumberGenerator::from_range(3..10);
    let drawn: Vec<u16> = (0..400).map(|_| generator.generate()).collect();
    assert!(drawn.iter().all(|number| (3..10).contains(number)));
    assert!(drawn.iter().any(|number| *number != drawn[0]));
    let mut single = NumberGenerator::from_range(5..6);
    assert!((0..50).all(|_| single.generate() == 5));
    let mut whole = NumberGenerator::default();
    let any: Vec<u16> = (0..400).map(|_| whole.generate()).collect();
    assert!(any.iter().any(|number| *number != any[0]));
}

#[test]
fn an_index_is_drawn_below_the_length() {
    assert_eq!(random_index(0), None);
    assert_eq!(random_index(1), Some(0));
    let drawn: Vec<usize> = (0..400).map(|_| random_index(5).unwrap()).collect();
    assert!(drawn.iter().all(|index| *index < 5));
    assert!(drawn.iter().any(|index| *index != drawn[0]));
    assert_eq!(SEED_COUNT, 6);
    assert!((0..400).all(|_| generate_seed() < 6));
}

#[test]
fn actions_ask_for_directions() {
    assert_eq!(SnakeAction::MoveUp.direction(), Direction::Up);
    assert_eq!(SnakeAction::MoveDown.direction(), Direction::Down);
    assert_eq!(SnakeAction::MoveLeft.direction(), Direction::Left);
    assert_eq!(SnakeAction::MoveRight.direction(), Direction::Right);
    assert_eq!(pressed_direction(false, false, false, false), None);
    assert_eq!(pressed_direction(true, true, true, true), Some(Direction::Up));
    assert_eq!(pressed_direction(false, true, true, true), Some(Direction::Left));
    assert_eq!(pressed_direction(false, false, true, true), Some(Direction::Right));
    assert_eq!(pressed_direction(false, false, false, true), Some(Direction::Down));
    assert_eq!(SnakeEvent::HeadCollide(4), SnakeEvent::HeadCollide(4));
}

#[test]
fn a_fragment_is_shown_by_its_part_and_its_bend() {
    let head = fragment(SnakeFragment::Head, Direction::Up, Some(Direction::Left));
    let tail = fragment(SnakeFragment::Tail, Direction::Up, Some(Direction::Left));
    assert_eq!(update_snake_sprite(&head), SnakeSprite::Head);
    assert_eq!(update_snake_sprite(&tail), SnakeSprite::Tail);
    let straight = fragment(SnakeFragment::Body(4), Direction::Up, Some(Direction::Up));
    let fresh = fragment(SnakeFragment::Body(4), Direction::Up, None);
    let right = fragment(SnakeFragment::Body(4), Direction::Up, Some(Direction::Left));
    let left = fragment(SnakeFragment::Body(4), Direction::Up, Some(Direction::Right));
    let back = fragment(SnakeFragment::Body(4), Direction::Up, Some(Direction::Down));
    assert_eq!(update_snake_sprite(&straight), SnakeSprite::Straight(4));
    assert_eq!(update_snake_sprite(&fresh), SnakeSprite::Straight(4));
    assert_eq!(update_snake_sprite(&right), SnakeSprite::RightCurved(4));
    assert_eq!(update_snake_sprite(&left), SnakeSprite::LeftCurved(4));
    assert_eq!(update_snake_sprite(&back), SnakeSprite::Straight(4));
}

#[test]
fn a_fragment_faces_the_way_it_came() {
    let head = fragment(SnakeFragment::Head, Direction::Up, Some(Direction::Left));
    let tail = fragment(SnakeFragment::Tail, Direction::Down, Some(Direction::Left));
    let bent = fragment(SnakeFragment::Body(1), Direction::Up, Some(Direction::Left));
    let straight = fragment(SnakeFragment::Body(1), Direction::Up, Some(Direction::Up));
    let fresh = fragment(SnakeFragment::Body(1), Direction::Right, None);
    assert_eq!(update_snake_transform(&head), Direction::Up);
    assert_eq!(update_snake_transform(&tail), Direction::Down);
    assert_eq!(update_snake_transform(&bent), Direction::Left);
    assert_eq!(update_snake_transform(&straight), Direction::Up);
    assert_eq!(update_snake_transform(&fresh), Direction::Right);
}

#[test]
fn a_fragment_is_a_solid_body() {
    let head = fragment(SnakeFragment::Head, Direction::Up, None);
    let body = fragment(SnakeFragment::Body(1), Direction::Up, None);
    let tail = fragment(SnakeFragment::Tail, Direction::Up, None);
    assert_eq!(
        head.rigid_body(),
        RigidBody { entity: 1, position: Position::new(0, 0, 1), kind: BodyKind::SnakeHead }
    );
    assert_eq!(body.rigid_body().kind, BodyKind::SnakeFragment);
    assert_eq!(tail.rigid_body().kind, BodyKind::SnakeFragment);
}
