//! Threads and what they synchronise on.

pub mod semaphore;

use vstd::prelude::*;

verus! {

/// All state of the thread library.
pub struct State {
    pub semaphore: semaphore::State,
}

impl State {
    pub fn new() -> (state: Self)
        ensures
            state.semaphore@ == Map::<crate::mem::VAddr, crate::scheduler::SemaphoreView>::empty(),
    {
        State { semaphore: semaphore::State::new() }
    }
}

} // verus!
