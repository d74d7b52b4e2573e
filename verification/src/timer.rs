//! Countdown timers that gate the discrete steps of the simulation.
//!
//! Time is counted in microseconds. A timer is fed the time that passed
//! since it was last fed and reports whether it has run out.

use vstd::prelude::*;

verus! {

/// The number of microseconds in a second.
pub const MICROS_PER_SECOND: u64 = 1_000_000;

/// The number of microseconds in a millisecond.
pub const MICROS_PER_MILLI: u64 = 1_000;

/// A countdown over a fixed period, either single-shot or repeating.
#[derive(Debug, Copy, Clone, PartialEq, Eq, Hash, Structural)]
pub struct Countdown {
    /// The time a full run takes.
    pub period: u64,
    /// The time left until the countdown runs out.
    pub remaining: u64,
    /// Whether the countdown starts over when it has run out.
    pub repeating: bool,
    /// Whether the countdown ran out: for a repeating one, during the most
    /// recent tick; for a single-shot one, at any time so far.
    pub finished: bool,
    /// Whether the countdown ran out during the most recent tick.
    pub just_finished: bool,
}

impl Countdown {
    /// A countdown that has not been fed any time yet.
    pub open spec fn fresh(period: u64, repeating: bool) -> Countdown {
        Countdown { period, remaining: period, repeating, finished: false, just_finished: false }
    }

    /// What holds of every countdown that was made by [`Countdown::new`]
    /// and changed by nothing but ticks and resets.
    pub open spec fn wf(self) -> bool {
        &&& self.remaining <= self.period
        &&& self.just_finished ==> self.finished
        &&& self.finished ==> self.remaining == (if self.repeating {
            self.period
        } else {
            0
        })
    }

    /// Whether feeding `elapsed` makes the countdown run out.
    pub open spec fn fires(self, elapsed: u64) -> bool {
        !(self.finished && !self.repeating) && elapsed >= self.remaining
    }

    /// The countdown after it was fed `elapsed`.
    ///
    /// A single-shot countdown that has run out stays as it is. Otherwise
    /// the time left shrinks by `elapsed`; when none is left the countdown
    /// has run out, once, however much time was fed, and a repeating one
    /// starts over with its full period.
    pub open spec fn ticked(self, elapsed: u64) -> Countdown {
        if self.finished && !self.repeating {
            Countdown { just_finished: false, ..self }
        } else if elapsed >= self.remaining {
            Countdown {
                remaining: if self.repeating {
                    self.period
                } else {
                    0
                },
                finished: true,
                just_finished: true,
                ..self
            }
        } else {
            Countdown {
                remaining: (self.remaining - elapsed) as u64,
                finished: false,
                just_finished: false,
                ..self
            }
        }
    }

    /// A countdown of `period` microseconds that has not started to run.
    pub fn new(period: u64, repeating: bool) -> (timer: Self)
        ensures
            timer.wf(),
            timer == Countdown::fresh(period, repeating),
    {
        Countdown { period, remaining: period, repeating, finished: false, just_finished: false }
    }

    /// A countdown of `seconds` seconds.
    pub fn from_seconds(seconds: u32, repeating: bool) -> (timer: Self)
        ensures
            timer.wf(),
            timer == Countdown::fresh((seconds * MICROS_PER_SECOND) as u64, repeating),
    {
        let period: u64 = (seconds as u64) * MICROS_PER_SECOND;
        Countdown::new(period, repeating)
    }

    /// A countdown of `millis` milliseconds.
    pub fn from_millis(millis: u32, repeating: bool) -> (timer: Self)
        ensures
            timer.wf(),
            timer == Countdown::fresh((millis * MICROS_PER_MILLI) as u64, repeating),
    {
        let period: u64 = (millis as u64) * MICROS_PER_MILLI;
        Countdown::new(period, repeating)
    }

    /// Feeds the countdown the `elapsed` microseconds that passed since it
    /// was last fed, and tells whether it ran out during this tick.
    pub fn tick(&mut self, elapsed: u64) -> (fired: bool)
        ensures
            *final(self) == old(self).ticked(elapsed),
            fired == old(self).fires(elapsed),
            fired == final(self).just_finished,
            old(self).wf() ==> final(self).wf(),
    {
        if self.finished && !self.repeating {
            self.just_finished = false;
            false
        } else if elapsed >= self.remaining {
            self.remaining = if self.repeating {
                self.period
            } else {
                0
            };
            self.finished = true;
            self.just_finished = true;
            true
        } else {
            self.remaining = self.remaining - elapsed;
            self.finished = false;
            self.just_finished = false;
            false
        }
    }

    /// Puts the countdown back to where it was when it was made.
    pub fn reset(&mut self)
        ensures
            final(self).wf(),
            *final(self) == Countdown::fresh(old(self).period, old(self).repeating),
    {
        self.remaining = self.period;
        self.finished = false;
        self.just_finished = false;
    }

    /// Whether the countdown ran out during the most recent tick.
    pub fn just_finished(&self) -> (b: bool)
        ensures
            b == self.just_finished,
    {
        self.just_finished
    }

    /// Whether the countdown ran out: for a repeating one, during the most
    /// recent tick; for a single-shot one, at any time so far.
    pub fn finished(&self) -> (b: bool)
        ensures
            b == self.finished,
    {
        self.finished
    }
}

/// The countdown that gates the moves of a snake.
#[derive(Debug, Copy, Clone, PartialEq, Eq, Hash, Structural)]
pub struct MoveTimer(pub Countdown);

/// The countdown after which an actor disappears.
#[derive(Debug, Copy, Clone, PartialEq, Eq, Hash, Structural)]
pub struct Lifetime(pub Countdown);

impl Lifetime {
    /// A lifetime of `seconds` seconds, which runs out once.
    pub fn from_seconds(seconds: u32) -> (lifetime: Self)
        ensures
            lifetime.0.wf(),
            lifetime == Lifetime(Countdown::fresh((seconds * MICROS_PER_SECOND) as u64, false)),
    {
        Lifetime(Countdown::from_seconds(seconds, false))
    }
}

/// Feeds every countdown of `timers` the time `elapsed`.
pub fn update_timer(timers: &mut Vec<Countdown>, elapsed: u64)
    ensures
        final(timers)@.len() == old(timers)@.len(),
        forall|i: int|
            0 <= i < old(timers)@.len() ==> #[trigger] final(timers)@[i] == old(timers)@[i].ticked(
                elapsed,
            ),
{
    let count: usize = timers.len();
    let mut i: usize = 0;
    while i < count
        invariant
            i <= count,
            timers@.len() == count,
            count == old(timers)@.len(),
            forall|k: int| 0 <= k < i ==> #[trigger] timers@[k] == old(timers)@[k].ticked(elapsed),
            forall|k: int| i <= k < count ==> #[trigger] timers@[k] == old(timers)@[k],
        decreases count - i,
    {
        let mut timer = timers[i];
        timer.tick(elapsed);
        timers[i] = timer;
        i = i + 1;
    }
}

/// Feeds a countdown that may be absent, and tells whether it has run out.
/// An absent countdown never has.
pub fn timer_finished(timer: Option<&mut Countdown>, elapsed: u64) -> (done: bool)
    ensures
        match timer {
            Some(t) => *final(t) == t.ticked(elapsed) && done == final(t).finished,
            None => !done,
        },
{
    match timer {
        Some(t) => {
            t.tick(elapsed);
            t.finished()
        },
        None => false,
    }
}

} // verus!
