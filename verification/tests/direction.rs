use snake_grid::direction::Direction;
use snake_grid::error::ConfigurationError;
use snake_grid::position::Position;
use snake_grid::states::{AppScreen, GameMode, GameStatus};
use snake_grid::vector::{IVec2, IVec3, UVec2};

const ALL: [Direction; 4] = [Direction::Up, Direction::Down, Direction::Right, Direction::Left];

#[test]
fn it_constructs_opposite_direction() {
    let tests = [(Direction::Up, Direction::Down), (Direction::Left, Direction::Right)];

    for (direction, opposite_direction) in tests {
        assert_eq!(
            direction.opposite(),
            opposite_direction,
            "{} is the opposite direction of {}",
            opposite_direction.to_string(),
            direction.to_string(),
        );

        assert_eq!(
            opposite_direction.opposite(),
            direction,
            "{} is the opposite direction of {}",
            direction.to_string(),
            opposite_direction.to_string()
        );
    }
}

#[test]
fn opposite_is_an_involution() {
    for direction in ALL {
        assert_eq!(direction.opposite().opposite(), direction);
        assert_ne!(direction.opposite(), direction);
    }
}

#[test]
fn clockwise_cycles_with_period_four() {
    for direction in ALL {
        let once = direction.clockwise();
        let twice = once.clockwise();
        let thrice = twice.clockwise();
        assert_ne!(once, direction);
        assert_ne!(twice, direction);
        assert_ne!(thrice, direction);
        assert_eq!(thrice.clockwise(), direction);
    }
}

#[test]
fn clockwise_follows_the_quarter_turn_cycle() {
    assert_eq!(Direction::Up.clockwise(), Direction::Left);
    assert_eq!(Direction::Left.clockwise(), Direction::Down);
    assert_eq!(Direction::Down.clockwise(), Direction::Right);
    assert_eq!(Direction::Right.clockwise(), Direction::Up);
}

#[test]
fn counter_clockwise_undoes_clockwise() {
    for direction in ALL {
        assert_eq!(direction.clockwise().counter_clockwise(), direction);
        assert_eq!(direction.counter_clockwise().clockwise(), direction);
        assert_eq!(direction.counter_clockwise(), direction.clockwise().opposite());
    }
    assert_eq!(Direction::Up.counter_clockwise(), Direction::Right);
}

#[test]
fn directions_have_unit_vectors() {
    assert_eq!(Direction::Up.to_ivec3(), IVec3::new(0, 1, 0));
    assert_eq!(Direction::Down.to_ivec3(), IVec3::new(0, -1, 0));
    assert_eq!(Direction::Right.to_ivec3(), IVec3::new(1, 0, 0));
    assert_eq!(Direction::Left.to_ivec3(), IVec3::new(-1, 0, 0));
    assert_eq!(Direction::Up.to_ivec2(), IVec2::new(0, 1));
    assert_eq!(Direction::Left.to_ivec2(), IVec2 { x: -1, y: 0 });
    assert_eq!(IVec3::new(3, 4, 5).xy(), IVec2::new(3, 4));
    assert_eq!(UVec2::new(7, 9), UVec2 { x: 7, y: 9 });
}

#[test]
fn directions_have_angles() {
    assert_eq!(Direction::Up.to_degrees(), -90);
    assert_eq!(Direction::Down.to_degrees(), 90);
    assert_eq!(Direction::Left.to_degrees(), 0);
    assert_eq!(Direction::Right.to_degrees(), 180);
}

#[test]
fn the_default_direction_is_up() {
    assert_eq!(Direction::default(), Direction::Up);
}

#[test]
fn directions_are_named() {
    assert_eq!(Direction::Up.to_string(), "Up");
    assert_eq!(Direction::Down.to_string(), "Down");
    assert_eq!(Direction::Right.to_string(), "Right");
    assert_eq!(Direction::Left.to_string(), "Left");
}

#[test]
fn errors_are_named() {
    assert_eq!(ConfigurationError::InvalidDimension.to_string(), "invalid grid dimension");
    assert_eq!(ConfigurationError::InvalidLength.to_string(), "invalid snake length");
}

#[test]
fn positions_move_by_vectors() {
    let start = Position::new(4, 4, 1);
    assert_eq!(start + IVec3::new(1, -2, 0), Position::new(5, 2, 1));
    assert_eq!(start - IVec3::new(1, -2, 1), Position::new(3, 6, 0));
    assert_eq!(start.step(Direction::Left), Position::new(3, 4, 1));
    assert_eq!(start.step(Direction::Up), Position::new(4, 5, 1));
    let mut moving = start;
    moving += Direction::Right.to_ivec3();
    assert_eq!(moving, Position::new(5, 4, 1));
    moving -= Direction::Right.to_ivec3();
    assert_eq!(moving, start);
    assert_eq!(Position::default(), Position(IVec3 { x: 0, y: 0, z: 0 }));
}

#[test]
fn a_step_and_a_step_back_cancel() {
    for direction in ALL {
        let start = Position::new(-3, 8, 2);
        assert_eq!(start.step(direction).step(direction.opposite()), start);
        assert_eq!(start.step(direction) - direction.to_ivec3(), start);
    }
}

#[test]
fn states_compare_by_variant() {
    assert_eq!(AppScreen::InGame, AppScreen::InGame);
    assert_ne!(AppScreen::Splash, AppScreen::MainMenu);
    assert_ne!(GameStatus::Running, GameStatus::Paused);
    assert_eq!(GameStatus::Tutorial, GameStatus::Tutorial);
    assert_ne!(GameMode::SinglePlayer, GameMode::MultiPlayer);
}
