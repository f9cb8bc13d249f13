//! Foundation.

pub mod ns_run_loop;
