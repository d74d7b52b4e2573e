use snake_grid::apple::Apple;
use snake_grid::direction::Direction;
use snake_grid::error::ConfigurationError;
use snake_grid::game::{Game, GameConfig, TickReport};
use snake_grid::number_generator::NumberGenerator;
use snake_grid::position::Position;
use snake_grid::rigid_body::{BodyKind, RigidBody};
use snake_grid::snake::{SnakeEvent, SnakeFragment};
use snake_grid::tile_map::clamp_position;
use snake_grid::timer::Lifetime;

const MOVE: u64 = 125_000;

fn config(width: u32, height: u32, x: i32, y: i32, direction: Direction, length: usize) -> GameConfig {
    GameConfig {
        width,
        height,
        snake_position: Position::new(x, y, 1),
        snake_direction: direction,
        snake_length: length,
        move_period: MOVE,
        max_apples: 0,
        apple_lifetime: None,
        apple_period: 1_000_000,
        bushes: Vec::new(),
    }
}

fn start(config: GameConfig) -> Game {
    let seeds: Vec<u16> = (0..config.snake_length - 2).map(|i| i as u16).collect();
    match Game::with_seeds(config, &seeds, NumberGenerator::from_range(0..7)) {
        Ok(game) => game,
        Err(error) => panic!("{}", error.to_string()),
    }
}

fn places(game: &Game) -> Vec<(i32, i32)> {
    game.snake().fragments().iter().map(|f| (f.position.0.x, f.position.0.y)).collect()
}

fn quiet(report: &TickReport) -> bool {
    !report.moved
        && report.expired.is_empty()
        && report.spawned.is_none()
        && report.eaten.is_empty()
        && report.grown.is_none()
        && report.events.is_empty()
        && !report.game_over
}

/// Whether every tile holds exactly the actors that stand on it.
fn consistent(game: &Game) -> bool {
    let bodies: Vec<RigidBody> = game.bodies();
    game.tile_map().tiles().iter().all(|tile| {
        let here = |body: &RigidBody| {
            body.position.0.x == tile.x() as i32 && body.position.0.y == tile.y() as i32
        };
        bodies.iter().all(|body| tile.contains(body.entity) == here(body))
            && tile.is_empty() == !bodies.iter().any(here)
    })
}

/// Whether every fragment is one step, on the torus, from the one behind.
fn connected(game: &Game) -> bool {
    let fragments = game.snake().fragments();
    fragments.windows(2).all(|pair| {
        let mut stepped = pair[1].position.step(pair[0].direction);
        clamp_position(&mut stepped, game.tile_map());
        stepped == pair[0].position
    })
}

#[test]
fn a_session_starts_as_it_is_configured() {
    let mut setup = config(16, 9, 4, 5, Direction::Down, 4);
    setup.bushes = vec![Position::new(5, 5, 1), Position::new(12, 8, 1)];
    setup.max_apples = 3;
    setup.apple_lifetime = Some(Lifetime::from_seconds(5));
    let game = start(setup);
    assert_eq!(game.tile_map().width(), 16);
    assert_eq!(game.tile_map().height(), 9);
    assert_eq!(places(&game), vec![(4, 5), (4, 6), (4, 7), (4, 8)]);
    let entities: Vec<u64> = game.snake().fragments().iter().map(|f| f.entity).collect();
    assert_eq!(entities, vec![2, 3, 4, 5]);
    assert_eq!(game.bushes()[1].entity, 1);
    assert_eq!(game.bushes()[1].position, Position::new(12, 8, 1));
    assert!(game.apples().is_empty());
    assert_eq!(game.next_entity(), 6);
    assert!(!game.is_over());
    assert_eq!(game.move_timer().0.remaining, MOVE);
    assert_eq!(game.spawner().max_apples, 3);
    assert_eq!(game.spawner().apple_lifetime, Some(Lifetime::from_seconds(5)));
    assert_eq!(game.bodies().len(), 6);
    assert_eq!(game.bodies()[2].kind, BodyKind::SnakeHead);
    assert_eq!(game.tile_map().empty_tiles().len(), 16 * 9 - 6);
    assert!(consistent(&game));
    assert!(connected(&game));
}

#[test]
fn a_session_draws_the_seeds_of_its_snake() {
    let game = Game::new(config(8, 8, 1, 1, Direction::Left, 5), NumberGenerator::from_range(2..4))
        .unwrap();
    assert_eq!(places(&game), vec![(1, 1), (2, 1), (3, 1), (4, 1), (5, 1)]);
    for fragment in &game.snake().fragments()[1..4] {
        assert!(matches!(fragment.kind, SnakeFragment::Body(2) | SnakeFragment::Body(3)));
    }
    assert!(consistent(&game));
}

#[test]
fn a_grid_without_tiles_is_refused() {
    let generator = NumberGenerator::from_range(0..7);
    assert!(matches!(
        Game::new(config(0, 8, 0, 0, Direction::Left, 2), generator),
        Err(ConfigurationError::InvalidDimension)
    ));
    let generator = NumberGenerator::from_range(0..7);
    assert!(matches!(
        Game::new(config(8, 0, 0, 0, Direction::Left, 1), generator),
        Err(ConfigurationError::InvalidDimension)
    ));
    assert_eq!(
        config(100_000, 100_000, 0, 0, Direction::Left, 2).check(),
        Some(ConfigurationError::InvalidDimension)
    );
}

#[test]
fn a_snake_that_does_not_fit_is_refused() {
    assert_eq!(
        config(8, 8, 4, 4, Direction::Left, 1).check(),
        Some(ConfigurationError::InvalidLength)
    );
    assert_eq!(
        config(8, 8, 4, 4, Direction::Left, 0).check(),
        Some(ConfigurationError::InvalidLength)
    );
    assert_eq!(
        config(8, 8, 4, 4, Direction::Left, 5).check(),
        Some(ConfigurationError::InvalidLength)
    );
    assert_eq!(config(8, 8, 4, 4, Direction::Left, 4).check(), None);
    assert_eq!(config(8, 8, 4, 4, Direction::Right, 5).check(), None);
    assert_eq!(
        config(8, 8, 4, 4, Direction::Right, 6).check(),
        Some(ConfigurationError::InvalidLength)
    );
    assert_eq!(
        config(8, 8, 8, 4, Direction::Right, 2).check(),
        Some(ConfigurationError::InvalidLength)
    );
    assert_eq!(
        config(8, 8, 4, -1, Direction::Right, 2).check(),
        Some(ConfigurationError::InvalidLength)
    );
    assert_eq!(
        config(8, 8, 4, 4, Direction::Up, usize::MAX).check(),
        Some(ConfigurationError::InvalidLength)
    );
    let generator = NumberGenerator::from_range(0..7);
    assert!(matches!(
        Game::new(config(8, 8, 4, 4, Direction::Left, 5), generator),
        Err(ConfigurationError::InvalidLength)
    ));
    let generator = NumberGenerator::from_range(0..7);
    assert!(matches!(
        Game::with_seeds(config(8, 8, 4, 4, Direction::Left, 3), &vec![1, 2], generator),
        Err(ConfigurationError::InvalidLength)
    ));
}

#[test]
fn the_snake_waits_for_its_timer() {
    let mut game = start(config(8, 8, 4, 4, Direction::Left, 3));
    let report = game.step(MOVE - 1, None, 0, 0);
    assert!(quiet(&report));
    assert_eq!(places(&game), vec![(4, 4), (5, 4), (6, 4)]);
    assert_eq!(game.move_timer().0.remaining, 1);
    let report = game.step(1, None, 0, 0);
    assert!(report.moved);
    assert_eq!(places(&game), vec![(3, 4), (4, 4), (5, 4)]);
    assert_eq!(game.move_timer().0.remaining, MOVE);
}

#[test]
fn after_one_tick_every_fragment_has_shifted_by_one() {
    let mut game = start(config(8, 8, 4, 4, Direction::Left, 3));
    assert_eq!(places(&game), vec![(4, 4), (5, 4), (6, 4)]);
    let report = game.tick(MOVE, None);
    assert!(report.moved);
    assert!(!report.game_over);
    assert_eq!(places(&game), vec![(3, 4), (4, 4), (5, 4)]);
    let kinds: Vec<SnakeFragment> = game.snake().fragments().iter().map(|f| f.kind).collect();
    assert_eq!(kinds, vec![SnakeFragment::Head, SnakeFragment::Body(0), SnakeFragment::Tail]);
    assert_eq!(game.snake().last_known_tail(), Some((Position::new(6, 4, 1), Direction::Left)));
    assert!(consistent(&game));
    assert!(connected(&game));
}

#[test]
fn the_input_is_latched_until_the_next_move() {
    let mut game = start(config(8, 8, 4, 4, Direction::Left, 3));
    game.step(10, Some(Direction::Up), 0, 0);
    assert_eq!(game.snake().next_direction(), Some(Direction::Up));
    assert_eq!(places(&game), vec![(4, 4), (5, 4), (6, 4)]);
    game.step(10, Some(Direction::Right), 0, 0);
    assert_eq!(game.snake().next_direction(), Some(Direction::Up));
    game.step(MOVE, None, 0, 0);
    assert_eq!(places(&game), vec![(4, 5), (4, 4), (5, 4)]);
    assert_eq!(game.snake().head().direction, Direction::Up);
    assert_eq!(game.snake().next_direction(), None);
    game.step(MOVE, Some(Direction::Down), 0, 0);
    assert_eq!(places(&game), vec![(4, 6), (4, 5), (4, 4)]);
    assert_eq!(game.snake().head().direction, Direction::Up);
}

#[test]
fn the_snake_wraps_around_the_grid() {
    let mut game = start(config(4, 4, 2, 0, Direction::Right, 3));
    assert_eq!(places(&game), vec![(2, 0), (1, 0), (0, 0)]);
    game.step(MOVE, None, 0, 0);
    assert_eq!(places(&game), vec![(3, 0), (2, 0), (1, 0)]);
    game.step(MOVE, None, 0, 0);
    assert_eq!(places(&game), vec![(0, 0), (3, 0), (2, 0)]);
    assert!(consistent(&game));
    assert!(connected(&game));
    assert!(game.tile_map().tile_at(0, 0).unwrap().contains(game.snake().head().entity));
    assert!(!game.tile_map().tile_at(3, 0).unwrap().contains(game.snake().head().entity));
    game.step(MOVE, Some(Direction::Down), 0, 0);
    assert_eq!(places(&game), vec![(0, 3), (0, 0), (3, 0)]);
    assert!(consistent(&game));
    assert!(connected(&game));
    assert!(!game.is_over());
}

#[test]
fn one_apple_appears_and_no_second_one() {
    let mut setup = config(4, 4, 1, 0, Direction::Right, 2);
    setup.move_period = u64::MAX;
    setup.max_apples = 1;
    setup.apple_period = 2_000_000;
    let mut game = start(setup);
    let report = game.tick(1_999_999, None);
    assert!(report.spawned.is_none());
    assert!(game.apples().is_empty());
    let report = game.tick(1, None);
    let apple = report.spawned.unwrap();
    assert_eq!(game.apples(), &[apple][..]);
    assert_eq!(apple.entity, 2);
    assert_eq!(apple.position.0.z, 1);
    assert_ne!((apple.position.0.x, apple.position.0.y), (1, 0));
    assert_ne!((apple.position.0.x, apple.position.0.y), (0, 0));
    assert!(game.tile_map().index_of(apple.position).is_some());
    assert!(consistent(&game));
    for _ in 0..10 {
        let report = game.tick(2_000_000, None);
        assert!(report.spawned.is_none());
        assert_eq!(game.apples(), &[apple][..]);
    }
    assert_eq!(game.next_entity(), 3);
    assert!(consistent(&game));
}

#[test]
fn an_apple_is_replaced_when_it_has_expired() {
    let mut setup = config(4, 4, 1, 0, Direction::Right, 2);
    setup.move_period = u64::MAX;
    setup.max_apples = 1;
    setup.apple_period = 1_000;
    setup.apple_lifetime = Some(Lifetime::from_seconds(1));
    let mut game = start(setup);
    let report = game.step(1_000, None, 0, 13);
    let first = report.spawned.unwrap();
    assert_eq!(first.position, Position::new(3, 3, 1));
    assert_eq!(first.lifetime, Some(Lifetime::from_seconds(1)));
    let report = game.step(999_000, None, 0, 0);
    assert!(report.expired.is_empty());
    assert!(report.spawned.is_none());
    assert_eq!(game.apples().len(), 1);
    assert_eq!(game.apples()[0].lifetime.unwrap().0.remaining, 1_000);
    let report = game.step(1_000, None, 0, 0);
    assert_eq!(report.expired.len(), 1);
    assert_eq!(report.expired[0].entity, first.entity);
    assert!(report.eaten.is_empty());
    assert!(report.grown.is_none());
    let second = report.spawned.unwrap();
    assert_eq!(second.position, Position::new(2, 0, 1));
    assert_eq!(second.entity, first.entity + 1);
    assert_eq!(game.apples(), &[second][..]);
    assert_eq!(game.snake().len(), 2);
    assert!(consistent(&game));
}

#[test]
fn no_apple_appears_for_a_choice_off_the_list() {
    let mut setup = config(2, 2, 1, 0, Direction::Right, 2);
    setup.move_period = u64::MAX;
    setup.max_apples = 5;
    setup.apple_period = 10;
    let mut game = start(setup);
    assert!(game.step(10, None, 0, 2).spawned.is_none());
    assert_eq!(game.step(10, None, 0, 1).spawned.unwrap().position, Position::new(1, 1, 1));
    assert_eq!(game.step(10, None, 0, 0).spawned.unwrap().position, Position::new(0, 1, 1));
    assert!(game.step(10, None, 0, 0).spawned.is_none());
    assert!(game.tick(10, None).spawned.is_none());
    assert_eq!(game.apples().len(), 2);
    assert!(game.tile_map().empty_tiles().is_empty());
    assert!(consistent(&game));
}

#[test]
fn the_snake_grows_when_its_head_reaches_an_apple() {
    let mut setup = config(8, 8, 4, 4, Direction::Left, 3);
    setup.move_period = 200;
    setup.max_apples = 1;
    setup.apple_period = 100;
    let mut game = start(setup);
    let report = game.step(100, None, 0, 35);
    let apple = report.spawned.unwrap();
    assert_eq!(apple, Apple { entity: 3, position: Position::new(3, 4, 1), lifetime: None });
    assert!(!report.moved);
    assert!(game.tile_map().tile_at(3, 4).unwrap().contains(3));
    let tail_before = game.snake().tail().position;
    assert_eq!(tail_before, Position::new(6, 4, 1));
    let report = game.step(100, None, 6, 0);
    assert!(report.moved);
    assert_eq!(report.eaten, vec![apple]);
    assert!(report.spawned.is_none());
    assert!(!report.game_over);
    let tail = report.grown.unwrap();
    assert_eq!(tail.entity, 4);
    assert_eq!(tail.kind, SnakeFragment::Tail);
    assert_eq!(tail.position, tail_before);
    assert_eq!(tail.direction, Direction::Left);
    assert!(game.apples().is_empty());
    assert_eq!(game.snake().len(), 4);
    assert_eq!(places(&game), vec![(3, 4), (4, 4), (5, 4), (6, 4)]);
    let kinds: Vec<SnakeFragment> = game.snake().fragments().iter().map(|f| f.kind).collect();
    assert_eq!(
        kinds,
        vec![SnakeFragment::Head, SnakeFragment::Body(0), SnakeFragment::Body(6), SnakeFragment::Tail]
    );
    assert!(!game.tile_map().tile_at(3, 4).unwrap().contains(3));
    assert!(game.tile_map().tile_at(3, 4).unwrap().contains(game.snake().head().entity));
    assert!(game.tile_map().tile_at(6, 4).unwrap().contains(4));
    assert_eq!(game.next_entity(), 5);
    assert!(consistent(&game));
    assert!(connected(&game));
    let report = game.step(200, None, 0, 0);
    assert!(report.eaten.is_empty());
    assert!(report.grown.is_none());
    assert_eq!(game.snake().len(), 4);
    assert_eq!(places(&game), vec![(2, 4), (3, 4), (4, 4), (5, 4)]);
}

#[test]
fn the_length_of_the_snake_never_shrinks() {
    let mut setup = config(6, 6, 3, 3, Direction::Up, 3);
    setup.max_apples = 4;
    setup.apple_period = MOVE / 2;
    setup.apple_lifetime = Some(Lifetime::from_seconds(2));
    let mut game = start(setup);
    let turns = [None, Some(Direction::Left), None, Some(Direction::Down), None, Some(Direction::Right)];
    let mut length: usize = game.snake().len();
    let mut steps: usize = 0;
    while !game.is_over() && steps < 300 {
        let before = game.snake().head().direction;
        let report = game.tick(MOVE / 2, turns[steps % turns.len()]);
        let now: usize = game.snake().len();
        let gained: usize = if report.eaten.is_empty() { 0 } else { 1 };
        assert_eq!(now, length + gained);
        assert_eq!(report.grown.is_some(), !report.eaten.is_empty());
        assert_ne!(game.snake().head().direction, before.opposite());
        assert!(game.apples().len() <= 4);
        assert!(game.snake().fragments().iter().all(|fragment| match fragment.kind {
            SnakeFragment::Body(seed) => seed < 7,
            _ => true,
        }));
        assert!(consistent(&game));
        assert!(connected(&game));
        length = now;
        steps += 1;
    }
}

#[test]
fn the_game_is_over_when_the_snake_bites_itself() {
    let mut game = start(config(8, 8, 5, 5, Direction::Right, 6));
    assert_eq!(places(&game), vec![(5, 5), (4, 5), (3, 5), (2, 5), (1, 5), (0, 5)]);
    assert!(!game.step(MOVE, Some(Direction::Up), 0, 0).game_over);
    assert!(!game.step(MOVE, Some(Direction::Left), 0, 0).game_over);
    assert_eq!(places(&game), vec![(4, 6), (5, 6), (5, 5), (4, 5), (3, 5), (2, 5)]);
    let report = game.step(MOVE, Some(Direction::Down), 0, 0);
    assert!(report.moved);
    assert!(report.game_over);
    assert_eq!(places(&game), vec![(4, 5), (4, 6), (5, 6), (5, 5), (4, 5), (3, 5)]);
    let bitten = game.snake().fragments()[4].entity;
    assert_eq!(report.events, vec![SnakeEvent::HeadCollide(bitten)]);
    assert!(report.grown.is_none());
    assert!(game.is_over());
    assert!(consistent(&game));
    let report = game.step(MOVE, Some(Direction::Left), 0, 0);
    assert!(quiet(&report));
    assert!(game.is_over());
    assert_eq!(places(&game), vec![(4, 5), (4, 6), (5, 6), (5, 5), (4, 5), (3, 5)]);
    assert!(quiet(&game.tick(10 * MOVE, None)));
    assert!(game.is_over());
}

#[test]
fn the_game_is_over_when_the_snake_runs_into_a_bush() {
    let mut setup = config(8, 8, 4, 4, Direction::Left, 3);
    setup.bushes = vec![Position::new(2, 4, 1), Position::new(7, 7, 1)];
    let mut game = start(setup);
    let report = game.step(MOVE, None, 0, 0);
    assert!(!report.game_over);
    assert!(report.events.is_empty());
    let report = game.step(MOVE, None, 0, 0);
    assert!(report.game_over);
    assert_eq!(report.events, vec![SnakeEvent::HeadCollide(0)]);
    assert!(game.is_over());
    assert_eq!(places(&game), vec![(2, 4), (3, 4), (4, 4)]);
    assert!(game.tile_map().tile_at(2, 4).unwrap().contains(0));
    assert!(game.tile_map().tile_at(2, 4).unwrap().contains(game.snake().head().entity));
    assert!(consistent(&game));
}

#[test]
fn the_head_may_follow_the_tail() {
    let mut game = start(config(2, 2, 1, 0, Direction::Right, 2));
    for turn in [Direction::Up, Direction::Left, Direction::Down, Direction::Right] {
        let report = game.step(MOVE, Some(turn), 0, 0);
        assert!(report.moved);
        assert!(!report.game_over);
        assert!(consistent(&game));
        assert!(connected(&game));
    }
    assert_eq!(places(&game), vec![(1, 0), (0, 0)]);
}
