//! What a session starts with.

use crate::bush::Bush;
use crate::direction::Direction;
use crate::error::ConfigurationError;
use crate::position::Position;
use crate::tile_map::{valid_dimensions, MAX_TILES};
use crate::timer::Lifetime;
use vstd::prelude::*;

verus! {

/// What a session starts with.
#[derive(Debug)]
pub struct GameConfig {
    /// The number of columns of the grid.
    pub width: u32,
    /// The number of rows of the grid.
    pub height: u32,
    /// Where the head of the snake starts.
    pub snake_position: Position,
    /// The direction that the snake starts in. Its fragments lie in a
    /// straight line behind the head.
    pub snake_direction: Direction,
    /// The number of fragments that the snake starts with.
    pub snake_length: usize,
    /// The time between two moves of the snake, in microseconds.
    pub move_period: u64,
    /// The number of apples that may lie on the grid at once.
    pub max_apples: usize,
    /// The time after which an apple disappears, if apples do.
    pub apple_lifetime: Option<Lifetime>,
    /// The time between two looks for a missing apple, in microseconds.
    pub apple_period: u64,
    /// Where bushes stand.
    pub bushes: Vec<Position>,
}

impl GameConfig {
    /// The column of the fragment at index `i` of the snake.
    pub open spec fn fragment_x(self, i: int) -> int {
        self.snake_position.0.x + self.snake_direction.opposite().run_x(i)
    }

    /// The row of the fragment at index `i` of the snake.
    pub open spec fn fragment_y(self, i: int) -> int {
        self.snake_position.0.y + self.snake_direction.opposite().run_y(i)
    }

    /// Whether the snake has at least a head and a tail and lies on the
    /// grid from head to tail.
    pub open spec fn snake_fits(self) -> bool {
        &&& self.snake_length >= 2
        &&& 0 <= self.fragment_x(0) < self.width
        &&& 0 <= self.fragment_y(0) < self.height
        &&& 0 <= self.fragment_x(self.snake_length - 1) < self.width
        &&& 0 <= self.fragment_y(self.snake_length - 1) < self.height
    }

    /// What is wrong with the configuration, if anything is: the size of
    /// the grid is looked at first, then the snake.
    pub open spec fn error(self) -> Option<ConfigurationError> {
        if !valid_dimensions(self.width, self.height) {
            Some(ConfigurationError::InvalidDimension)
        } else if !self.snake_fits() {
            Some(ConfigurationError::InvalidLength)
        } else {
            None
        }
    }

    /// The bushes of a new session: one at every position asked for, known
    /// by its index.
    pub open spec fn initial_bushes(self) -> Seq<Bush> {
        Seq::new(
            self.bushes@.len(),
            |i: int| Bush { entity: i as u64, position: self.bushes@[i] },
        )
    }
}

impl GameConfig {
    /// A snake that lies on the grid has no more fragments than the grid
    /// has tiles.
    pub proof fn lemma_fitting_snake_is_short(self)
        requires
            self.error() is None,
        ensures
            2 <= self.snake_length <= MAX_TILES,
            self.width <= MAX_TILES,
            self.height <= MAX_TILES,
    {
        let w = self.width as int;
        let h = self.height as int;
        assert(w <= w * h && h <= w * h) by (nonlinear_arith)
            requires
                0 < w,
                0 < h,
        ;
    }

    /// Looks for what is wrong with the configuration.
    pub fn check(&self) -> (error: Option<ConfigurationError>)
        ensures
            error == self.error(),
    {
        if self.width == 0 || self.height == 0 {
            return Some(ConfigurationError::InvalidDimension);
        }
        assert(self.width as int * self.height as int <= u64::MAX) by (nonlinear_arith)
            requires
                self.width <= u32::MAX,
                self.height <= u32::MAX,
        ;
        if (self.width as u64) * (self.height as u64) > MAX_TILES as u64 {
            return Some(ConfigurationError::InvalidDimension);
        }
        assert(self.width <= self.width as int * self.height as int && self.height
            <= self.width as int * self.height as int) by (nonlinear_arith)
            requires
                0 < self.width,
                0 < self.height,
        ;
        let x: i64 = self.snake_position.0.x as i64;
        let y: i64 = self.snake_position.0.y as i64;
        if self.snake_length < 2 || x < 0 || x >= self.width as i64 || y < 0 || y
            >= self.height as i64 {
            return Some(ConfigurationError::InvalidLength);
        }
        if self.snake_length > MAX_TILES {
            return Some(ConfigurationError::InvalidLength);
        }
        let reach: i64 = (self.snake_length - 1) as i64;
        let tail_x: i64 = match self.snake_direction.opposite() {
            Direction::Right => x + reach,
            Direction::Left => x - reach,
            _ => x,
        };
        let tail_y: i64 = match self.snake_direction.opposite() {
            Direction::Up => y + reach,
            Direction::Down => y - reach,
            _ => y,
        };
        if tail_x < 0 || tail_x >= self.width as i64 || tail_y < 0 || tail_y >= self.height as i64 {
            return Some(ConfigurationError::InvalidLength);
        }
        None
    }
}

} // verus!
