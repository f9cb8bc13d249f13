//! Host implementations of the guest's frameworks.

pub mod core_foundation;
pub mod core_graphics;
pub mod foundation;
