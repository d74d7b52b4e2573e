//! What an update reports to whoever shows the game.

use crate::apple::Apple;
use crate::snake::{Fragment, SnakeEvent};
use vstd::prelude::*;

verus! {

/// What happened during one update, for whoever shows the game.
#[derive(Debug)]
pub struct TickReport {
    /// Whether the snake moved.
    pub moved: bool,
    /// The apples that disappeared because their lifetime ran out.
    pub expired: Vec<Apple>,
    /// The apple that appeared, if one did.
    pub spawned: Option<Apple>,
    /// The apples that the snake ate.
    pub eaten: Vec<Apple>,
    /// The tail that the snake grew, if it did.
    pub grown: Option<Fragment>,
    /// The collisions of the head that end the game.
    pub events: Vec<SnakeEvent>,
    /// Whether the game ended during this update.
    pub game_over: bool,
}

/// What a [`TickReport`] holds, as mathematical values.
#[verifier::ext_equal]
pub struct TickReportView {
    pub moved: bool,
    pub expired: Seq<Apple>,
    pub spawned: Option<Apple>,
    pub eaten: Seq<Apple>,
    pub grown: Option<Fragment>,
    pub events: Seq<SnakeEvent>,
    pub game_over: bool,
}

impl View for TickReport {
    type V = TickReportView;

    open spec fn view(&self) -> TickReportView {
        TickReportView {
            moved: self.moved,
            expired: self.expired@,
            spawned: self.spawned,
            eaten: self.eaten@,
            grown: self.grown,
            events: self.events@,
            game_over: self.game_over,
        }
    }
}

impl TickReportView {
    /// The report of an update during which nothing happened.
    pub open spec fn quiet() -> TickReportView {
        TickReportView {
            moved: false,
            expired: Seq::empty(),
            spawned: None,
            eaten: Seq::empty(),
            grown: None,
            events: Seq::empty(),
            game_over: false,
        }
    }
}

} // verus!
