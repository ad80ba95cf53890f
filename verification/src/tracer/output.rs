//! Shared output helpers used by `profile run` and `profile attach`:
//! converting the in-memory event log to the canonical [`Trace`] type
//! and rendering the per-syscall summary table.

use std::collections::HashMap;

use vstd::prelude::*;

use crate::profile::trace::{CountView, EventView, Trace, TraceCount, TraceEvent, TraceView};
use crate::syscall_names;
use crate::text::{decimal, decimal_string, pad_left, prefix, push_decimal_usize, push_padded, strs};
use super::ringbuf::{lossy_utf8, text_len, SyscallEvent};
use super::by_count_desc;
use crate::profile::merge::descending;

verus! {

/// The characters of an optional name.
pub open spec fn opt_name(o: Option<&str>) -> Option<Seq<char>> {
    match o {
        Some(s) => Some(s@),
        None => None,
    }
}

/// The event record for a ring buffer event whose syscall resolved to
/// `name`.
pub open spec fn event_record(e: SyscallEvent, name: Option<Seq<char>>) -> EventView {
    EventView {
        timestamp_ns: e.timestamp_ns,
        tgid: e.tgid,
        tid: e.tid,
        nr: e.syscall_nr,
        name,
        comm: lossy_utf8(e.comm@.take(text_len(e.comm@))),
    }
}

/// The count record for a counter-map pair whose syscall resolved to
/// `name`.
pub open spec fn count_record(c: (u32, u64), name: Option<Seq<char>>) -> CountView {
    CountView { nr: c.0, name, count: c.1 }
}

/// The trace of a session: schema 1, the given architecture and
/// command, one event record per event and one count record per pair, in
/// their order.
pub open spec fn session_trace(
    arch: Seq<char>,
    argv: Seq<Seq<char>>,
    events: Seq<SyscallEvent>,
    event_names: Seq<Option<Seq<char>>>,
    counts: Seq<(u32, u64)>,
    count_names: Seq<Option<Seq<char>>>,
) -> TraceView {
    TraceView {
        schema_version: 1,
        arch,
        target_argv: argv,
        events: Seq::new(events.len(), |i: int| event_record(events[i], event_names[i])),
        counts: Seq::new(counts.len(), |i: int| count_record(counts[i], count_names[i])),
    }
}

fn owned_name(o: Option<&str>) -> (r: Option<String>)
    ensures
        match r {
            Some(s) => o matches Some(t) && s@ == t@,
            None => o is None,
        },
{
    match o {
        Some(t) => Some(t.to_owned()),
        None => None,
    }
}

fn copy_strings(v: &[String]) -> (r: Vec<String>)
    ensures
        strs(r@) == strs(v@),
{
    let mut r: Vec<String> = Vec::new();
    let mut i: usize = 0;
    while i < v.len()
        invariant
            i <= v.len(),
            strs(r@) == strs(v@).take(i as int),
        decreases v.len() - i,
    {
        let ghost before = r@;
        let x = v[i].clone();
        r.push(x);
        assert(strs(r@) =~= strs(before).push(v@[i as int]@));
        assert(strs(r@) =~= strs(v@).take(i + 1));
        i = i + 1;
    }
    assert(strs(v@).take(v.len() as int) =~= strs(v@));
    r
}

/// The trace of a session whose syscall names were resolved as given.
pub fn assemble_trace(
    arch: &str,
    argv: &[String],
    events: &[SyscallEvent],
    event_names: &Vec<Option<&str>>,
    counts: &[(u32, u64)],
    count_names: &Vec<Option<&str>>,
) -> (t: Trace)
    requires
        event_names.len() == events.len(),
        count_names.len() == counts.len(),
    ensures
        t@ == session_trace(
            arch@,
            strs(argv@),
            events@,
            event_names@.map_values(|o: Option<&str>| opt_name(o)),
            counts@,
            count_names@.map_values(|o: Option<&str>| opt_name(o)),
        ),
{
    let ghost en = event_names@.map_values(|o: Option<&str>| opt_name(o));
    let ghost cn = count_names@.map_values(|o: Option<&str>| opt_name(o));
    let mut evs: Vec<TraceEvent> = Vec::new();
    let mut i: usize = 0;
    while i < events.len()
        invariant
            i <= events.len(),
            event_names.len() == events.len(),
            en == event_names@.map_values(|o: Option<&str>| opt_name(o)),
            evs@.len() == i,
            forall|j: int| 0 <= j < i ==> (#[trigger] evs@[j])@ == event_record(events@[j], en[j]),
        decreases events.len() - i,
    {
        let e = &events[i];
        let comm = e.comm_str();
        evs.push(TraceEvent {
            timestamp_ns: e.timestamp_ns,
            tgid: e.tgid,
            tid: e.tid,
            syscall_nr: e.syscall_nr,
            syscall_name: owned_name(event_names[i]),
            comm,
        });
        i = i + 1;
    }
    let mut cs: Vec<TraceCount> = Vec::new();
    let mut k: usize = 0;
    while k < counts.len()
        invariant
            k <= counts.len(),
            count_names.len() == counts.len(),
            cn == count_names@.map_values(|o: Option<&str>| opt_name(o)),
            cs@.len() == k,
            forall|j: int| 0 <= j < k ==> (#[trigger] cs@[j])@ == count_record(counts@[j], cn[j]),
        decreases counts.len() - k,
    {
        let c = counts[k];
        cs.push(TraceCount { syscall_nr: c.0, syscall_name: owned_name(count_names[k]), count: c.1 });
        k = k + 1;
    }
    let t = Trace {
        schema_version: 1,
        arch: arch.to_owned(),
        target_argv: copy_strings(argv),
        events: evs,
        counts: cs,
    };
    assert(t@.events =~= Seq::new(events@.len(), |j: int| event_record(events@[j], en[j])));
    assert(t@.counts =~= Seq::new(counts@.len(), |j: int| count_record(counts@[j], cn[j])));
    t
}

/// Resolutions held by syscall number: each one present is empty or a
/// non-empty name.
pub open spec fn cache_ok(m: Map<u32, Option<&'static str>>) -> bool {
    forall|n: u32| #[trigger] m.contains_key(n) ==> (m[n] matches Some(x) ==> x@.len() > 0)
}

/// `m2` keeps every resolution `m1` holds.
pub open spec fn cache_keeps(m1: Map<u32, Option<&'static str>>, m2: Map<u32, Option<&'static str>>) -> bool {
    forall|n: u32| #[trigger] m1.contains_key(n) ==> m2.contains_key(n) && m2[n] == m1[n]
}

/// Names resolved for a list of syscall numbers on the host table. A
/// number is looked up only the first time it comes, here or in an
/// earlier call with the same `cache`: equal numbers share one
/// resolution.
fn resolve_all(nrs: &Vec<u32>, cache: &mut HashMap<u32, Option<&'static str>>) -> (names: Vec<Option<&'static str>>)
    requires
        cache_ok(old(cache)@),
    ensures
        names.len() == nrs.len(),
        forall|i: int| 0 <= i < names.len() ==> ((#[trigger] names@[i]) matches Some(s) ==> s@.len() > 0),
        cache_ok(final(cache)@),
        cache_keeps(old(cache)@, final(cache)@),
        forall|i: int| 0 <= i < nrs.len() ==> final(cache)@.contains_key(#[trigger] nrs@[i])
            && names@[i] == final(cache)@[nrs@[i]],
{
    broadcast use vstd::std_specs::hash::group_hash_axioms;
    let ghost start = cache@;
    let mut names: Vec<Option<&'static str>> = Vec::new();
    let mut i: usize = 0;
    while i < nrs.len()
        invariant
            i <= nrs.len(),
            names.len() == i,
            cache_ok(cache@),
            cache_keeps(start, cache@),
            forall|j: int| 0 <= j < i ==> cache@.contains_key(#[trigger] nrs@[j]) && names@[j] == cache@[nrs@[j]],
        decreases nrs.len() - i,
    {
        let n = nrs[i];
        let ghost before = cache@;
        let r = match cache.get(&n) {
            Some(v) => *v,
            None => {
                let v = syscall_names::name(n);
                cache.insert(n, v);
                v
            },
        };
        assert(cache@.contains_key(n) && cache@[n] == r);
        assert(cache_keeps(before, cache@));
        names.push(r);
        i = i + 1;
    }
    assert forall|i: int| 0 <= i < names.len() implies ((#[trigger] names@[i]) matches Some(s) ==> s@.len() > 0) by {
        assert(cache@.contains_key(nrs@[i]));
    }
    names
}

/// A resolution of syscall numbers to names: a name, where there is one,
/// is not empty.
pub open spec fn names_nonempty(f: spec_fn(u32) -> Option<Seq<char>>) -> bool {
    forall|n: u32| #[trigger] f(n) matches Some(x) ==> x.len() > 0
}

/// The session's trace when every syscall number, of an event or of a
/// count alike, is named by `f`: a name depends on its number alone.
pub open spec fn resolved_session(
    arch: Seq<char>,
    argv: Seq<Seq<char>>,
    events: Seq<SyscallEvent>,
    counts: Seq<(u32, u64)>,
    f: spec_fn(u32) -> Option<Seq<char>>,
) -> TraceView {
    session_trace(
        arch,
        argv,
        events,
        Seq::new(events.len(), |i: int| f(events[i].syscall_nr)),
        counts,
        Seq::new(counts.len(), |k: int| f(counts[k].0)),
    )
}

/// Converts a session to the canonical [`Trace`], resolving syscall
/// names on the host table. Everything but the names is as
/// `session_trace` lays it out; which names the table gives is the
/// build target's, so of a name the contract says only that it is not
/// empty.
pub fn build_trace(arch: &str, argv: &[String], events: &[SyscallEvent], counts: &[(u32, u64)]) -> (t: Trace)
    ensures
        exists|en: Seq<Option<Seq<char>>>, cn: Seq<Option<Seq<char>>>|
            t@ == session_trace(arch@, strs(argv@), events@, en, counts@, cn)
            && en.len() == events@.len() && cn.len() == counts@.len(),
        forall|i: int| 0 <= i < t@.events.len() ==> ((#[trigger] t@.events[i]).name matches Some(n) ==> n.len() > 0),
        forall|i: int| 0 <= i < t@.counts.len() ==> ((#[trigger] t@.counts[i]).name matches Some(n) ==> n.len() > 0),
        exists|f: spec_fn(u32) -> Option<Seq<char>>|
            names_nonempty(f) && t@ == #[trigger] resolved_session(arch@, strs(argv@), events@, counts@, f),
{
    let mut enr: Vec<u32> = Vec::new();
    let mut i: usize = 0;
    while i < events.len()
        invariant
            i <= events.len(),
            enr@.len() == i,
            forall|j: int| 0 <= j < i ==> #[trigger] enr@[j] == events@[j].syscall_nr,
        decreases events.len() - i,
    {
        enr.push(events[i].syscall_nr);
        i = i + 1;
    }
    let mut cnr: Vec<u32> = Vec::new();
    let mut k: usize = 0;
    while k < counts.len()
        invariant
            k <= counts.len(),
            cnr@.len() == k,
            forall|j: int| 0 <= j < k ==> #[trigger] cnr@[j] == counts@[j].0,
        decreases counts.len() - k,
    {
        cnr.push(counts[k].0);
        k = k + 1;
    }
    let mut cache: HashMap<u32, Option<&'static str>> = HashMap::new();
    proof {
        broadcast use vstd::std_specs::hash::group_hash_axioms;
        assert(cache@ =~= Map::<u32, Option<&'static str>>::empty());
    }
    let ghost c0 = cache@;
    let en = resolve_all(&enr, &mut cache);
    let ghost c1 = cache@;
    let cn = resolve_all(&cnr, &mut cache);
    let t = assemble_trace(arch, argv, events, &en, counts, &cn);
    proof {
        let m = cache@;
        let f = |n: u32| if m.contains_key(n) { opt_name(m[n]) } else { None };
        let ev = en@.map_values(|o: Option<&str>| opt_name(o));
        let cv = cn@.map_values(|o: Option<&str>| opt_name(o));
        assert(ev.len() == events@.len() && cv.len() == counts@.len());
        assert(ev =~= Seq::new(events@.len(), |i: int| f(events@[i].syscall_nr))) by {
            assert forall|i: int| 0 <= i < events@.len() implies ev[i] == f(events@[i].syscall_nr) by {
                assert(enr@[i] == events@[i].syscall_nr);
                assert(c1.contains_key(enr@[i]));
            }
        }
        assert(cv =~= Seq::new(counts@.len(), |k: int| f(counts@[k].0))) by {
            assert forall|k: int| 0 <= k < counts@.len() implies cv[k] == f(counts@[k].0) by {
                assert(cnr@[k] == counts@[k].0);
            }
        }
        assert forall|n: u32| (#[trigger] f(n)) is Some implies f(n)->0.len() > 0 by {
            if m.contains_key(n) {
                assert(m[n] matches Some(y) ==> y@.len() > 0);
            }
        }
        assert forall|i: int| 0 <= i < t@.events.len() implies ((#[trigger] t@.events[i]).name matches Some(n) ==> n.len() > 0) by {
            assert(t@.events[i].name == ev[i]);
            assert(ev[i] == f(events@[i].syscall_nr));
        }
        assert forall|i: int| 0 <= i < t@.counts.len() implies ((#[trigger] t@.counts[i]).name matches Some(n) ==> n.len() > 0) by {
            assert(t@.counts[i].name == cv[i]);
            assert(cv[i] == f(counts@[i].0));
        }
        assert(names_nonempty(f));
        assert(t@ == resolved_session(arch@, strs(argv@), events@, counts@, f));
    }
    t
}

/// A trace built from the counter map's pairs, which come by descending
/// count, keeps its counts by descending count, as the trace format
/// promises.
pub proof fn lemma_session_counts_descending(
    arch: Seq<char>,
    argv: Seq<Seq<char>>,
    events: Seq<SyscallEvent>,
    event_names: Seq<Option<Seq<char>>>,
    counts: Seq<(u32, u64)>,
    count_names: Seq<Option<Seq<char>>>,
)
    requires
        by_count_desc(counts),
    ensures
        descending(session_trace(arch, argv, events, event_names, counts, count_names).counts),
{
    let t = session_trace(arch, argv, events, event_names, counts, count_names);
    assert forall|i: int, j: int| 0 <= i < j < t.counts.len() implies #[trigger] t.counts[i].count >= #[trigger] t.counts[j].count by {
        assert(t.counts[i].count == counts[i].1);
        assert(t.counts[j].count == counts[j].1);
        assert(counts[i].1 > counts[j].1 || (counts[i].1 == counts[j].1 && counts[i].0 < counts[j].0));
    }
}

/// One summary row: number and count right-aligned, then the name.
pub open spec fn summary_row(c: (u32, u64), name: Seq<char>) -> Seq<char> {
    pad_left(decimal(c.0 as nat), 5) + "  "@ + pad_left(decimal(c.1 as nat), 10) + "  "@ + name + "\n"@
}

/// The rows of the summary table.
pub open spec fn summary_rows(counts: Seq<(u32, u64)>, names: Seq<Seq<char>>) -> Seq<char>
    decreases counts.len(),
{
    if counts.len() == 0 {
        Seq::empty()
    } else {
        summary_rows(counts.drop_last(), names) + summary_row(counts.last(), names[counts.len() - 1])
    }
}

/// The summary printed after a session: totals, a header, and one row
/// per count with its name (`?` where none resolved).
pub open spec fn summary_text(events_len: nat, counts: Seq<(u32, u64)>, names: Seq<Seq<char>>) -> Seq<char> {
    "Observed "@ + decimal(events_len) + " syscall events ("@ + decimal(counts.len())
        + " unique syscalls)\n\n   NR       COUNT  NAME\n"@ + summary_rows(counts, names)
}

/// The name printed for a resolution.
pub open spec fn shown_name(o: Option<Seq<char>>) -> Seq<char> {
    match o {
        Some(n) => n,
        None => "?"@,
    }
}

/// The summary for a session whose syscall names resolved as given.
pub fn render_summary(events_len: usize, counts: &[(u32, u64)], names: &Vec<Option<&str>>) -> (s: String)
    requires
        names.len() == counts.len(),
    ensures
        s@ == summary_text(
            events_len as nat,
            counts@,
            names@.map_values(|o: Option<&str>| shown_name(opt_name(o))),
        ),
{
    let ghost shown = names@.map_values(|o: Option<&str>| shown_name(opt_name(o)));
    let mut s = String::new();
    s.append("Observed ");
    push_decimal_usize(&mut s, events_len);
    s.append(" syscall events (");
    push_decimal_usize(&mut s, counts.len());
    s.append(" unique syscalls)\n\n   NR       COUNT  NAME\n");
    let ghost start = s@;
    let mut i: usize = 0;
    while i < counts.len()
        invariant
            i <= counts.len(),
            names.len() == counts.len(),
            shown == names@.map_values(|o: Option<&str>| shown_name(opt_name(o))),
            s@ == start + summary_rows(prefix(counts@, i), shown),
        decreases counts.len() - i,
    {
        let c = counts[i];
        let nr_text = decimal_string(c.0 as u64);
        push_padded(&mut s, nr_text.as_str(), 5);
        s.append("  ");
        let count_text = decimal_string(c.1);
        push_padded(&mut s, count_text.as_str(), 10);
        s.append("  ");
        match names[i] {
            Some(n) => s.append(n),
            None => s.append("?"),
        }
        s.append("\n");
        assert(counts@.take(i + 1).drop_last() =~= prefix(counts@, i));
        i = i + 1;
    }
    assert(prefix(counts@, counts.len()) =~= counts@);
    s
}

/// The summary when every row's syscall number is named by `f`: a row's
/// name depends on its number alone.
pub open spec fn resolved_summary(events_len: nat, counts: Seq<(u32, u64)>, f: spec_fn(u32) -> Option<Seq<char>>) -> Seq<char> {
    summary_text(events_len, counts, Seq::new(counts.len(), |k: int| shown_name(f(counts[k].0))))
}

/// The summary for a session, resolving names on the host table.
pub fn summary(events_len: usize, counts: &[(u32, u64)]) -> (s: String)
    ensures
        exists|names: Seq<Seq<char>>| names.len() == counts@.len()
            && s@ == summary_text(events_len as nat, counts@, names),
        exists|f: spec_fn(u32) -> Option<Seq<char>>|
            names_nonempty(f) && s@ == #[trigger] resolved_summary(events_len as nat, counts@, f),
{
    let mut nrs: Vec<u32> = Vec::new();
    let mut k: usize = 0;
    while k < counts.len()
        invariant
            k <= counts.len(),
            nrs@.len() == k,
            forall|j: int| 0 <= j < k ==> #[trigger] nrs@[j] == counts@[j].0,
        decreases counts.len() - k,
    {
        nrs.push(counts[k].0);
        k = k + 1;
    }
    let mut cache: HashMap<u32, Option<&'static str>> = HashMap::new();
    proof {
        broadcast use vstd::std_specs::hash::group_hash_axioms;
        assert(cache@ =~= Map::<u32, Option<&'static str>>::empty());
    }
    let names = resolve_all(&nrs, &mut cache);
    let s = render_summary(events_len, counts, &names);
    proof {
        let m = cache@;
        let f = |n: u32| if m.contains_key(n) { opt_name(m[n]) } else { None };
        let shown = names@.map_values(|o: Option<&str>| shown_name(opt_name(o)));
        assert(shown =~= Seq::new(counts@.len(), |k: int| shown_name(f(counts@[k].0)))) by {
            assert forall|k: int| 0 <= k < counts@.len() implies shown[k] == shown_name(f(counts@[k].0)) by {
                assert(nrs@[k] == counts@[k].0);
            }
        }
        assert forall|n: u32| (#[trigger] f(n)) is Some implies f(n)->0.len() > 0 by {
            if m.contains_key(n) {
                assert(m[n] matches Some(y) ==> y@.len() > 0);
            }
        }
        assert(names_nonempty(f));
        assert(s@ == resolved_summary(events_len as nat, counts@, f));
    }
    s
}

} // verus!
