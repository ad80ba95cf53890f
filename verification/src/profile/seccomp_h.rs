//! libseccomp C header emitter.
//!
//! The header defines an array of `SCMP_SYS(..)` entries, one per
//! observed syscall, and its length, to be fed to
//! `seccomp_rule_add` in a loop.

use vstd::prelude::*;

use super::trace::{sorted_names, Trace};
use crate::text::{decimal, prefix, push_decimal_usize, strs};

verus! {

/// One `SCMP_SYS(..)` array entry per name.
pub open spec fn scmp_lines(names: Seq<Seq<char>>) -> Seq<char>
    decreases names.len(),
{
    if names.len() == 0 {
        Seq::empty()
    } else {
        scmp_lines(names.drop_last()) + "    SCMP_SYS("@ + names.last() + "),\n"@
    }
}

/// The header text for the allowlist `names`.
pub open spec fn header_text(names: Seq<Seq<char>>) -> Seq<char> {
    "#ifndef SANDPRINT_PROFILE_H\n#define SANDPRINT_PROFILE_H\n\n#include <seccomp.h>\n\nstatic const int sandprint_syscalls[] = {\n"@
        + scmp_lines(names)
        + "};\n\n#define SANDPRINT_NUM_SYSCALLS "@ + decimal(names.len())
        + "\n\n#endif /* SANDPRINT_PROFILE_H */\n"@
}

/// A C header listing the trace's syscall names, ascending, each once.
pub fn emit(trace: &Trace) -> (s: String)
    ensures
        s@ == header_text(sorted_names(trace@.counts)),
{
    let names = trace.unique_syscall_names();
    let ghost v = strs(names@);
    let mut s = String::new();
    s.append("#ifndef SANDPRINT_PROFILE_H\n#define SANDPRINT_PROFILE_H\n\n#include <seccomp.h>\n\nstatic const int sandprint_syscalls[] = {\n");
    let ghost start = s@;
    let mut i: usize = 0;
    while i < names.len()
        invariant
            i <= names.len(),
            v == strs(names@),
            s@ == start + scmp_lines(prefix(v, i)),
        decreases names.len() - i,
    {
        s.append("    SCMP_SYS(");
        s.append(names[i].as_str());
        s.append("),\n");
        assert(v.take(i + 1).drop_last() =~= prefix(v, i));
        i = i + 1;
    }
    assert(prefix(v, names.len()) =~= v);
    s.append("};\n\n#define SANDPRINT_NUM_SYSCALLS ");
    push_decimal_usize(&mut s, names.len());
    s.append("\n\n#endif /* SANDPRINT_PROFILE_H */\n");
    s
}

} // verus!
