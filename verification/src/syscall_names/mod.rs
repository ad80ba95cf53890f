//! Syscall number to name resolution.
//!
//! Numbers differ across architectures; the table is the one of the
//! architecture the crate was built for.

pub mod tables;

pub use tables::{name, name_of};
