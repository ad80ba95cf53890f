//! Architecture-specific syscall name tables, backed by the `syscalls` crate.

use vstd::prelude::*;

verus! {

/// Declares `syscalls::Sysno`, the syscall enumeration of the build
/// target's architecture, to Verus as an opaque type.
#[verifier::external_type_specification]
#[verifier::external_body]
pub struct ExSysno(::syscalls::Sysno);

/// Trusted: `syscalls::Sysno::new`, which maps a number to the syscall of
/// the build target's table, or `None` for a number outside it. Which
/// numbers are valid depends on the architecture the crate was built
/// for, so nothing is stated of the result.
#[verifier::external_body]
fn sysno_new(nr: usize) -> Option<::syscalls::Sysno> {
    ::syscalls::Sysno::new(nr)
}

/// Trusted: `syscalls::Sysno::name`, which returns the variant's
/// identifier (`stringify!` of it), so never an empty string. Which
/// identifier belongs to a number is left unsaid, as above.
#[verifier::external_body]
fn sysno_name(s: ::syscalls::Sysno) -> (r: &'static str)
    ensures
        r@.len() > 0,
{
    s.name()
}

/// Resolve a syscall number to its symbolic name on the host architecture.
/// Returns `None` for numbers that don't correspond to a real syscall.
pub fn name(nr: u32) -> (r: Option<&'static str>)
    ensures
        r matches Some(s) ==> s@.len() > 0,
{
    name_of(sysno_new(nr as usize))
}

/// The symbolic name of a table entry, or `None` where the lookup found
/// no syscall: a name comes back exactly when an entry was given.
pub fn name_of(sysno: Option<::syscalls::Sysno>) -> (r: Option<&'static str>)
    ensures
        r is Some <==> sysno is Some,
        r matches Some(s) ==> s@.len() > 0,
{
    match sysno {
        Some(s) => Some(sysno_name(s)),
        None => None,
    }
}

} // verus!
