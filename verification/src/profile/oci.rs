//! OCI runtime spec `linux.seccomp` block emitter.
//!
//! Default action denies with EPERM (errno 1) so unobserved syscalls
//! return a clean error to the application rather than killing the
//! process, which is easier to spot and recover from in production.

use vstd::prelude::*;

use super::trace::{sorted_names, Trace};
use super::ProfileError;
use crate::json::{array, push_quoted, push_str_array, quoted, quoted_all};
use crate::text::{str_eq, strs};

verus! {

/// The seccomp architecture token for an `uname -m` architecture name,
/// for the architectures the emitter supports.
pub open spec fn arch_token(arch: Seq<char>) -> Option<Seq<char>> {
    if arch == "x86_64"@ {
        Some("SCMP_ARCH_X86_64"@)
    } else if arch == "aarch64"@ {
        Some("SCMP_ARCH_AARCH64"@)
    } else {
        None
    }
}

/// The pretty-printed JSON of the `linux.seccomp` block that denies
/// everything with errno 1 but the syscalls `names` on `token`.
pub open spec fn oci_text(token: Seq<char>, names: Seq<Seq<char>>) -> Seq<char> {
    "{\n  \"defaultAction\": \"SCMP_ACT_ERRNO\",\n  \"defaultErrnoRet\": 1,\n  \"architectures\": [\n    "@
        + quoted(token)
        + "\n  ],\n  \"syscalls\": [\n    {\n      \"names\": "@
        + array(quoted_all(names), 3)
        + ",\n      \"action\": \"SCMP_ACT_ALLOW\"\n    }\n  ]\n}"@
}

fn token_for(arch: &str) -> (t: Option<&'static str>)
    ensures
        match t {
            Some(tok) => arch_token(arch@) == Some(tok@),
            None => arch_token(arch@) is None,
        },
{
    if str_eq(arch, "x86_64") {
        Some("SCMP_ARCH_X86_64")
    } else if str_eq(arch, "aarch64") {
        Some("SCMP_ARCH_AARCH64")
    } else {
        None
    }
}

/// The `linux.seccomp` block allowing the trace's syscall names,
/// ascending and each once, or `UnsupportedArch` for an architecture
/// other than `x86_64` and `aarch64`.
pub fn emit(trace: &Trace) -> (r: Result<String, ProfileError>)
    ensures
        match r {
            Ok(text) => arch_token(trace@.arch) is Some
                && text@ == oci_text(arch_token(trace@.arch)->0, sorted_names(trace@.counts)),
            Err(e) => arch_token(trace@.arch) is None
                && (e matches ProfileError::UnsupportedArch(a) && a@ == trace@.arch),
        },
{
    let token = match token_for(trace.arch.as_str()) {
        Some(t) => t,
        None => {
            return Err(ProfileError::UnsupportedArch(trace.arch.clone()));
        },
    };
    let names = trace.unique_syscall_names();
    let mut s = String::new();
    s.append("{\n  \"defaultAction\": \"SCMP_ACT_ERRNO\",\n  \"defaultErrnoRet\": 1,\n  \"architectures\": [\n    ");
    push_quoted(&mut s, token);
    s.append("\n  ],\n  \"syscalls\": [\n    {\n      \"names\": ");
    push_str_array(&mut s, &names, 3);
    s.append(",\n      \"action\": \"SCMP_ACT_ALLOW\"\n    }\n  ]\n}");
    Ok(s)
}

} // verus!
