//! systemd unit `SystemCallFilter=` directive emitter.
//!
//! systemd accepts a space-separated allowlist on a single line; an
//! empty filter is equivalent to no restriction, so callers should
//! never deploy an emitted profile produced from a zero-syscall trace.

use vstd::prelude::*;

use super::trace::{sorted_names, Trace};
use crate::text::{join, push_joined, strs};

verus! {

/// The directive for the allowlist `names`.
pub open spec fn systemd_text(names: Seq<Seq<char>>) -> Seq<char> {
    "SystemCallFilter="@ + join(names, " "@) + "\n"@
}

/// The `SystemCallFilter=` line allowing the trace's syscall names,
/// ascending, each once.
pub fn emit(trace: &Trace) -> (s: String)
    ensures
        s@ == systemd_text(sorted_names(trace@.counts)),
{
    let names = trace.unique_syscall_names();
    let mut s = String::new();
    s.append("SystemCallFilter=");
    push_joined(&mut s, &names, " ");
    s.append("\n");
    s
}

/// An empty allowlist leaves the directive empty, and a single name
/// stands alone between the `=` and the end of the line.
pub proof fn lemma_systemd_short_lists(n: Seq<char>)
    ensures
        systemd_text(Seq::empty()) == "SystemCallFilter="@ + "\n"@,
        systemd_text(seq![n]) == "SystemCallFilter="@ + n + "\n"@,
{
    assert(systemd_text(Seq::empty()) =~= "SystemCallFilter="@ + "\n"@);
    assert(systemd_text(seq![n]) =~= "SystemCallFilter="@ + n + "\n"@);
}

/// One more name in the allowlist adds exactly one space and that name
/// before the end of the line: every two neighbours are one space apart.
pub proof fn lemma_systemd_one_more_name(names: Seq<Seq<char>>, n: Seq<char>)
    requires
        names.len() > 0,
    ensures
        systemd_text(names.push(n)) == systemd_text(names).drop_last() + " "@ + n + "\n"@,
{
    reveal_strlit("\n");
    assert(names.push(n).drop_last() =~= names);
    assert(names.push(n).last() == n);
    assert(join(names.push(n), " "@) == join(names, " "@) + " "@ + n);
    assert(systemd_text(names).drop_last() =~= "SystemCallFilter="@ + join(names, " "@));
    assert(systemd_text(names.push(n)) =~= systemd_text(names).drop_last() + " "@ + n + "\n"@);
}

} // verus!
