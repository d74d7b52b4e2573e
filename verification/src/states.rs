//! Coarse application states.

use vstd::prelude::*;

verus! {

/// The screen the application currently shows.
#[derive(Debug, Copy, Clone, PartialEq, Eq, Hash, Structural)]
pub enum AppScreen {
    Splash,
    MainMenu,
    InGame,
}

/// Whether the simulation of a started session advances.
#[derive(Debug, Copy, Clone, PartialEq, Eq, Hash, Structural)]
pub enum GameStatus {
    Tutorial,
    Running,
    Paused,
}

/// How many players take part in a session.
#[derive(Debug, Copy, Clone, PartialEq, Eq, Hash, Structural)]
pub enum GameMode {
    SinglePlayer,
    MultiPlayer,
}

} // verus!
