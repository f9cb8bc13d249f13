//! The boundary between a guest binary and the host that runs it.
//!
//! A guest binary, built for another operating system, calls the functions
//! of that system by name. The host stands in for them: it takes the
//! arguments out of the guest's registers, works on the guest's memory and
//! puts a return value back. This crate is the part of such a host where the
//! two worlds meet:
//!
//! - [`mem`] is the guest's address space with its typed pointers;
//! - [`abi`] packs values into register slots and unpacks them again;
//! - [`dyld`] resolves the names that the guest calls and dispatches calls;
//! - [`scheduler`] and [`environment`] run the guest's threads one at a time
//!   and let them block on semaphores;
//! - [`frameworks::foundation::ns_run_loop`] queues what the host's own
//!   threads have to tell the guest, for the guest thread to carry out;
//! - [`handle_map`] pairs the handles that the guest holds with the
//!   resources that the host holds;
//! - [`libc`] and [`frameworks`] are the host functions themselves.
#![allow(non_snake_case)]
#![allow(non_camel_case_types)]
#![allow(non_upper_case_globals)]

pub mod abi;
pub mod dyld;
pub mod environment;
pub mod frameworks;
pub mod handle_map;
pub mod image;
pub mod libc;
pub mod mem;
pub mod objc;
pub mod scheduler;

pub use crate::environment::Environment;
pub use crate::scheduler::ThreadID;
