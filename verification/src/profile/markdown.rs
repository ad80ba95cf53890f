//! Human-readable Markdown report emitter.

use vstd::prelude::*;

use super::trace::{CountView, Trace, TraceCount};
use crate::text::{decimal, join, prefix, push_decimal, push_decimal_usize, push_joined, strs};

verus! {

/// A syscall's name, or `?` where it has none.
pub open spec fn name_or_unknown(o: Option<Seq<char>>) -> Seq<char> {
    match o {
        Some(n) => n,
        None => "?"@,
    }
}

/// One table row per count, in the trace's order.
pub open spec fn count_rows(counts: Seq<CountView>) -> Seq<char>
    decreases counts.len(),
{
    if counts.len() == 0 {
        Seq::empty()
    } else {
        let c = counts.last();
        count_rows(counts.drop_last()) + "| "@ + decimal(c.nr as nat) + " | "@ + decimal(c.count as nat)
            + " | `"@ + name_or_unknown(c.name) + "` |\n"@
    }
}

/// The report for a trace with architecture `arch`, command `argv`,
/// `n_events` events and the given counts.
pub open spec fn report_text(arch: Seq<char>, argv: Seq<Seq<char>>, n_events: nat, counts: Seq<CountView>) -> Seq<char> {
    "# sandprint profile\n\n- **Architecture:** "@ + arch
        + "\n- **Command:** `"@ + join(argv, " "@)
        + "`\n- **Total events:** "@ + decimal(n_events)
        + "\n- **Unique syscalls:** "@ + decimal(counts.len())
        + "\n\n| NR | Count | Name |\n|---:|------:|------|\n"@
        + count_rows(counts)
}

fn push_row(s: &mut String, c: &TraceCount)
    ensures
        final(s)@ == old(s)@ + "| "@ + decimal(c.syscall_nr as nat) + " | "@ + decimal(c.count as nat)
            + " | `"@ + name_or_unknown(c@.name) + "` |\n"@,
{
    s.append("| ");
    push_decimal(s, c.syscall_nr as u64);
    s.append(" | ");
    push_decimal(s, c.count);
    s.append(" | `");
    match &c.syscall_name {
        Some(n) => s.append(n.as_str()),
        None => s.append("?"),
    }
    s.append("` |\n");
}

/// A Markdown report: architecture, command, totals, and a table of the
/// counts in the trace's order (`?` for an unresolved name).
pub fn emit(trace: &Trace) -> (s: String)
    ensures
        s@ == report_text(trace@.arch, trace@.target_argv, trace.events@.len(), trace@.counts),
{
    let mut s = String::new();
    s.append("# sandprint profile\n\n- **Architecture:** ");
    s.append(trace.arch.as_str());
    s.append("\n- **Command:** `");
    push_joined(&mut s, &trace.target_argv, " ");
    s.append("`\n- **Total events:** ");
    push_decimal_usize(&mut s, trace.events.len());
    s.append("\n- **Unique syscalls:** ");
    push_decimal_usize(&mut s, trace.counts.len());
    s.append("\n\n| NR | Count | Name |\n|---:|------:|------|\n");
    let ghost start = s@;
    let ghost counts = trace@.counts;
    let mut i: usize = 0;
    while i < trace.counts.len()
        invariant
            i <= trace.counts.len(),
            counts == trace@.counts,
            s@ == start + count_rows(prefix(counts, i)),
        decreases trace.counts.len() - i,
    {
        push_row(&mut s, &trace.counts[i]);
        assert(counts.take(i + 1).drop_last() =~= prefix(counts, i));
        i = i + 1;
    }
    assert(prefix(counts, trace.counts.len()) =~= counts);
    s
}

} // verus!
