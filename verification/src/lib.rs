//! Grid simulation for a snake game: directions and positions on a toroidal
//! grid, a tile-occupancy index, the snake's movement and growth, collision
//! detection and timed apple spawning.
//!
//! The values are in [`direction`], [`position`], [`vector`], [`timer`] and
//! [`rigid_body`]; the parts of the simulation in [`tile_map`], [`snake`],
//! [`apple`], [`bush`] and [`collision`]; and [`game`] puts them together
//! into a session that is carried on from frame to frame.
//!
//! Every function states what it does in a contract that Verus proves. The
//! laws of the simulation are proof functions beside the definitions they
//! speak of: the algebra of directions, the wrap onto the grid, the
//! consistency of the tile map with the positions of the actors, and the
//! shape of the snake.
//!
//! Two other crates are called: `rand` for what is left to chance and
//! `itertools` for the coordinates of a grid. The calls sit behind small
//! functions in [`number_generator`] and [`tile_map`] whose contracts are
//! taken on trust.

pub mod apple;
pub mod bush;
pub mod collision;
pub mod direction;
pub mod entity;
pub mod error;
pub mod game;
pub mod number_generator;
pub mod position;
pub mod rigid_body;
pub mod snake;
pub mod states;
pub mod tile_map;
pub mod timer;
pub mod vector;
