//! The animation states of the pet.
use vstd::prelude::*;

verus! {

/// What the pet is doing; each state plays its own row of the sprite sheet.
#[derive(Clone, Copy, Debug, PartialEq, Eq, Structural)]
pub enum State {
    Idle,
    Typing,
    Drag,
    Stretch,
    Bounce,
    Lean,
}

/// How long an idle spell lasts before it restarts, at frame clock `time`.
pub open spec fn spec_idle_duration(time: u32) -> u32 {
    (3000 + time % 4000) as u32
}

impl State {
    /// Number of frames of the fixed-length animations (idle and typing rows).
    pub fn frame_count(self) -> (n: usize)
        ensures
            n == 4,
    {
        4
    }

    /// How long the state lasts, in milliseconds, when it began at frame clock `time`:
    /// an idle spell lasts between 3 and 7 seconds, every other state until it is left.
    pub fn duration_ms(self, time: u32) -> (d: u32)
        ensures
            self == State::Idle ==> d == spec_idle_duration(time),
            self != State::Idle ==> d == u32::MAX,
    {
        match self {
            State::Idle => 3000 + (time % 4000),
            State::Typing | State::Drag | State::Stretch | State::Bounce | State::Lean => u32::MAX,
        }
    }
}

} // verus!
