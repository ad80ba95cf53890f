//! Profile data type and output emitters.
//!
//! The canonical [`Trace`] is what flows between the tracer and the
//! emitters. `profile run` and `profile attach` produce one; `profile
//! generate` consumes one and renders it as one of the formats listed
//! in [`Format`].

pub mod diff;
pub mod markdown;
pub mod merge;
pub mod oci;
pub mod seccomp_h;
pub mod systemd;
pub mod trace;
pub mod trace_json;

use vstd::prelude::*;

pub use trace::{Trace, TraceCount, TraceEvent};

use crate::text::str_eq;
use markdown::report_text;
use oci::{arch_token, oci_text};
use seccomp_h::header_text;
use systemd::systemd_text;
use trace::sorted_names;
use trace_json::trace_json;

verus! {

/// Output format selectable on the `profile generate` command.
#[derive(Clone, Copy, Debug, PartialEq, Eq, Structural)]
pub enum Format {
    /// The internal trace JSON (the format `profile run --output` writes).
    Json,
    /// `linux.seccomp` block of an OCI runtime spec.
    Oci,
    /// A `SystemCallFilter=` directive line for a systemd unit.
    Systemd,
    /// A C header with `#define` entries usable with libseccomp.
    SeccompH,
    /// Human-readable Markdown report.
    Markdown,
}

/// The format that a command-line spelling selects, if any.
pub open spec fn format_of(s: Seq<char>) -> Option<Format> {
    if s == "json"@ {
        Some(Format::Json)
    } else if s == "oci"@ {
        Some(Format::Oci)
    } else if s == "systemd"@ {
        Some(Format::Systemd)
    } else if s == "seccomp-h"@ || s == "seccomp_h"@ {
        Some(Format::SeccompH)
    } else if s == "markdown"@ || s == "md"@ {
        Some(Format::Markdown)
    } else {
        None
    }
}

/// The message for a spelling that names no format.
pub open spec fn unknown_format_message(s: Seq<char>) -> Seq<char> {
    "unknown format '"@ + s + "'; expected one of: json, oci, systemd, seccomp-h, markdown"@
}

impl Format {
    /// Parse a CLI value into a [`Format`]. Used as a `clap` value
    /// parser so we keep clap out of this module's dependency surface.
    pub fn parse_cli(s: &str) -> (r: Result<Format, String>)
        ensures
            match r {
                Ok(f) => format_of(s@) == Some(f),
                Err(m) => format_of(s@) is None && m@ == unknown_format_message(s@),
            },
    {
        if str_eq(s, "json") {
            Ok(Format::Json)
        } else if str_eq(s, "oci") {
            Ok(Format::Oci)
        } else if str_eq(s, "systemd") {
            Ok(Format::Systemd)
        } else if str_eq(s, "seccomp-h") || str_eq(s, "seccomp_h") {
            Ok(Format::SeccompH)
        } else if str_eq(s, "markdown") || str_eq(s, "md") {
            Ok(Format::Markdown)
        } else {
            let mut m = String::new();
            m.append("unknown format '");
            m.append(s);
            m.append("'; expected one of: json, oci, systemd, seccomp-h, markdown");
            Err(m)
        }
    }
}

/// Declares `std::io::Error` to Verus as an opaque type: errors are carried, never inspected.
#[verifier::external_type_specification]
#[verifier::external_body]
pub struct ExIoError(std::io::Error);

/// Declares `serde_json::Error` to Verus as an opaque type: errors are carried, never inspected.
#[verifier::external_type_specification]
#[verifier::external_body]
pub struct ExJsonError(serde_json::Error);

/// Errors of loading, rendering and combining traces.
#[derive(Debug)]
pub enum ProfileError {
    /// Reading a trace failed.
    Io(std::io::Error),
    /// A trace file was not valid trace JSON.
    Json(serde_json::Error),
    /// The OCI emitter knows no seccomp token for the architecture.
    UnsupportedArch(String),
    /// `merge` was given no traces.
    EmptyMerge,
    /// `merge` was given traces of different architectures: the first
    /// trace's architecture, then each differing one in order.
    ArchMismatch(Vec<String>),
}

/// Render a [`Trace`] to a string in the chosen [`Format`]. Only the OCI
/// format can fail, on an architecture it has no token for.
pub fn emit(trace: &Trace, format: Format) -> (r: Result<String, ProfileError>)
    ensures
        match format {
            Format::Json => (r matches Ok(s) && s@ == trace_json(trace@)),
            Format::Oci => match r {
                Ok(s) => arch_token(trace@.arch) is Some
                    && s@ == oci_text(arch_token(trace@.arch)->0, sorted_names(trace@.counts)),
                Err(e) => arch_token(trace@.arch) is None
                    && (e matches ProfileError::UnsupportedArch(a) && a@ == trace@.arch),
            },
            Format::Systemd => (r matches Ok(s) && s@ == systemd_text(sorted_names(trace@.counts))),
            Format::SeccompH => (r matches Ok(s) && s@ == header_text(sorted_names(trace@.counts))),
            Format::Markdown => (r matches Ok(s) && s@ == report_text(
                trace@.arch,
                trace@.target_argv,
                trace.events@.len(),
                trace@.counts,
            )),
        },
{
    match format {
        Format::Json => Ok(trace_json::to_json(trace)),
        Format::Oci => oci::emit(trace),
        Format::Systemd => Ok(systemd::emit(trace)),
        Format::SeccompH => Ok(seccomp_h::emit(trace)),
        Format::Markdown => Ok(markdown::emit(trace)),
    }
}

} // verus!
