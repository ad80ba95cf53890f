//! Observe a process via eBPF and render a tight seccomp allowlist from
//! the syscalls it actually invokes.
//!
//! This crate holds the verified core: the canonical trace model, the
//! emitters that render a trace as OCI JSON, a systemd directive, a
//! libseccomp header, a Markdown report or the trace JSON itself, the
//! diff and merge of traces, and the decisions of the tracing loop.

pub mod text;
pub mod json;
pub mod profile;
pub mod syscall_names;
pub mod tracer;

pub use tracer::{Tracer, TracerConfig};
