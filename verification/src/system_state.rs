//! The system clock.

use vstd::prelude::*;

verus! {

/// The system clock: the number of ticks that have elapsed.
#[derive(Debug, Clone, Copy, PartialEq, Eq, Structural)]
pub struct SystemState {
    pub time: i32,
}

impl SystemState {
    /// A clock that stands at tick 0.
    pub fn new() -> (state: Self)
        ensures
            state.time == 0,
    {
        Self { time: 0 }
    }
}

} // verus!
