//! A session of the game: the tile map, the snake, the apples and the
//! bushes, and the update that carries them from one frame to the next.
//!
//! One update latches the input, lets apples disappear and appear, and,
//! when the move timer runs out, moves the snake, wraps it onto the grid,
//! refreshes the tile map, detects collisions and applies what follows
//! from them.
//!
//! [`model`] says what an update does, on mathematical values, and proves
//! what holds of every session. [`session`] holds the session itself,
//! whose functions are proved to do what the model says.

pub mod config;
pub mod model;
pub mod report;
pub mod session;

pub use config::GameConfig;
pub use model::GameView;
pub use report::{TickReport, TickReportView};
pub use session::Game;
