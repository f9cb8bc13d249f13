//! Host implementations of the guest's C library.

pub mod errno;
pub mod network;
pub mod pthread;
pub mod time;

use vstd::prelude::*;

verus! {

/// The guest's file mode bits.
pub type mode_t = u16;

/// All state of the C library.
pub struct State {
    pub errno: errno::State,
    pub network: network::State,
    pub pthread: pthread::State,
}

impl State {
    pub fn new() -> (state: Self)
        ensures
            state.errno.cells() == Map::<crate::scheduler::ThreadID, crate::mem::VAddr>::empty(),
            state.network.service_refs.wf(),
            state.network.service_refs@ == Map::<
                crate::mem::VAddr,
                crate::handle_map::HostResource,
            >::empty(),
            state.pthread.semaphore@ == Map::<
                crate::mem::VAddr,
                crate::scheduler::SemaphoreView,
            >::empty(),
    {
        State {
            errno: errno::State::new(),
            network: network::State::new(),
            pthread: pthread::State::new(),
        }
    }
}

} // verus!
