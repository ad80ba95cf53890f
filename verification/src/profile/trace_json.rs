//! The canonical trace as pretty-printed JSON (the layout that
//! `profile run --output` writes and `profile generate --format json`
//! re-emits).

use vstd::prelude::*;

use super::trace::{CountView, EventView, Trace, TraceCount, TraceEvent, TraceView};
use crate::json::{array, array_body, indent, lemma_array_lists_elements, opt_quoted, push_indent, push_quoted,
    push_str_array, quoted, quoted_all};
use crate::text::{decimal, lemma_listed_shift, listed_in_order, occurs_at, placed_at, prefix, push_decimal, strs};

verus! {

/// One count as a JSON object inside the `counts` array.
pub open spec fn count_json(c: CountView) -> Seq<char> {
    "{\n      \"syscall_nr\": "@ + decimal(c.nr as nat)
        + ",\n      \"syscall_name\": "@ + opt_quoted(c.name)
        + ",\n      \"count\": "@ + decimal(c.count as nat)
        + "\n    }"@
}

/// One event as a JSON object inside the `events` array.
pub open spec fn event_json(e: EventView) -> Seq<char> {
    "{\n      \"timestamp_ns\": "@ + decimal(e.timestamp_ns as nat)
        + ",\n      \"tgid\": "@ + decimal(e.tgid as nat)
        + ",\n      \"tid\": "@ + decimal(e.tid as nat)
        + ",\n      \"syscall_nr\": "@ + decimal(e.nr as nat)
        + ",\n      \"syscall_name\": "@ + opt_quoted(e.name)
        + ",\n      \"comm\": "@ + quoted(e.comm)
        + "\n    }"@
}

/// The whole trace as pretty-printed JSON, fields in declaration order.
pub open spec fn trace_json(t: TraceView) -> Seq<char> {
    "{\n  \"schema_version\": "@ + decimal(t.schema_version as nat)
        + ",\n  \"arch\": "@ + quoted(t.arch)
        + ",\n  \"target_argv\": "@ + array(quoted_all(t.target_argv), 1)
        + ",\n  \"events\": "@ + array(t.events.map_values(|e: EventView| event_json(e)), 1)
        + ",\n  \"counts\": "@ + array(t.counts.map_values(|c: CountView| count_json(c)), 1)
        + "\n}"@
}

/// The JSON of a trace lists its events, each as its own JSON object, in
/// the trace's order; likewise its counts and its command's arguments.
pub proof fn lemma_trace_json_lists_in_order(t: TraceView)
    ensures
        listed_in_order(trace_json(t), t.events.map_values(|e: EventView| event_json(e))),
        listed_in_order(trace_json(t), t.counts.map_values(|c: CountView| count_json(c))),
        listed_in_order(trace_json(t), quoted_all(t.target_argv)),
{
    let argv = array(quoted_all(t.target_argv), 1);
    let evs = array(t.events.map_values(|e: EventView| event_json(e)), 1);
    let cs = array(t.counts.map_values(|c: CountView| count_json(c)), 1);
    let head = "{\n  \"schema_version\": "@ + decimal(t.schema_version as nat) + ",\n  \"arch\": "@ + quoted(t.arch)
        + ",\n  \"target_argv\": "@;
    let text = trace_json(t);
    lemma_array_lists_elements(quoted_all(t.target_argv), 1);
    assert(text =~= head + argv + (",\n  \"events\": "@ + evs + ",\n  \"counts\": "@ + cs + "\n}"@));
    lemma_listed_shift(head, argv, ",\n  \"events\": "@ + evs + ",\n  \"counts\": "@ + cs + "\n}"@, quoted_all(t.target_argv));
    lemma_array_lists_elements(t.events.map_values(|e: EventView| event_json(e)), 1);
    assert(text =~= (head + argv + ",\n  \"events\": "@) + evs + (",\n  \"counts\": "@ + cs + "\n}"@));
    lemma_listed_shift(head + argv + ",\n  \"events\": "@, evs, ",\n  \"counts\": "@ + cs + "\n}"@,
        t.events.map_values(|e: EventView| event_json(e)));
    lemma_array_lists_elements(t.counts.map_values(|c: CountView| count_json(c)), 1);
    assert(text =~= (head + argv + ",\n  \"events\": "@ + evs + ",\n  \"counts\": "@) + cs + "\n}"@);
    lemma_listed_shift(head + argv + ",\n  \"events\": "@ + evs + ",\n  \"counts\": "@, cs, "\n}"@,
        t.counts.map_values(|c: CountView| count_json(c)));
}

/// An event's JSON object holds its six fields in declaration order, each
/// key with that field's value.
pub proof fn lemma_event_json_fields(e: EventView)
    ensures
        listed_in_order(event_json(e), seq![
            "\"timestamp_ns\": "@ + decimal(e.timestamp_ns as nat),
            "\"tgid\": "@ + decimal(e.tgid as nat),
            "\"tid\": "@ + decimal(e.tid as nat),
            "\"syscall_nr\": "@ + decimal(e.nr as nat),
            "\"syscall_name\": "@ + opt_quoted(e.name),
            "\"comm\": "@ + quoted(e.comm),
        ]),
{
    reveal_strlit("{\n      ");
    reveal_strlit(",\n      ");
    reveal_strlit("\n    }");
    let open = "{\n      "@;
    let sep = ",\n      "@;
    let f0 = "\"timestamp_ns\": "@ + decimal(e.timestamp_ns as nat);
    let f1 = "\"tgid\": "@ + decimal(e.tgid as nat);
    let f2 = "\"tid\": "@ + decimal(e.tid as nat);
    let f3 = "\"syscall_nr\": "@ + decimal(e.nr as nat);
    let f4 = "\"syscall_name\": "@ + opt_quoted(e.name);
    let f5 = "\"comm\": "@ + quoted(e.comm);
    let parts = seq![f0, f1, f2, f3, f4, f5];
    let text = event_json(e);
    reveal_strlit("{\n      \"timestamp_ns\": ");
    reveal_strlit(",\n      \"tgid\": ");
    reveal_strlit(",\n      \"tid\": ");
    reveal_strlit(",\n      \"syscall_nr\": ");
    reveal_strlit(",\n      \"syscall_name\": ");
    reveal_strlit(",\n      \"comm\": ");
    reveal_strlit("\"timestamp_ns\": ");
    reveal_strlit("\"tgid\": ");
    reveal_strlit("\"tid\": ");
    reveal_strlit("\"syscall_nr\": ");
    reveal_strlit("\"syscall_name\": ");
    reveal_strlit("\"comm\": ");
    assert(text =~= open + f0 + sep + f1 + sep + f2 + sep + f3 + sep + f4 + sep + f5 + "\n    }"@);
    let o0 = open.len() as int;
    let o1 = o0 + f0.len() + sep.len();
    let o2 = o1 + f1.len() + sep.len();
    let o3 = o2 + f2.len() + sep.len();
    let o4 = o3 + f3.len() + sep.len();
    let o5 = o4 + f4.len() + sep.len();
    let at = seq![o0, o1, o2, o3, o4, o5];
    assert(text.subrange(o0, o0 + f0.len()) =~= f0);
    assert(text.subrange(o1, o1 + f1.len()) =~= f1);
    assert(text.subrange(o2, o2 + f2.len()) =~= f2);
    assert(text.subrange(o3, o3 + f3.len()) =~= f3);
    assert(text.subrange(o4, o4 + f4.len()) =~= f4);
    assert(text.subrange(o5, o5 + f5.len()) =~= f5);
    assert forall|i: int| 0 <= i < parts.len() implies occurs_at(text, parts[i], #[trigger] at[i]) by {
        if i == 0 {} else if i == 1 {} else if i == 2 {} else if i == 3 {} else if i == 4 {} else {}
    }
    assert(placed_at(text, parts, at));
}

/// A count's JSON object holds its number, name and count, in that
/// order, each under its key.
pub proof fn lemma_count_json_fields(c: CountView)
    ensures
        listed_in_order(count_json(c), seq![
            "\"syscall_nr\": "@ + decimal(c.nr as nat),
            "\"syscall_name\": "@ + opt_quoted(c.name),
            "\"count\": "@ + decimal(c.count as nat),
        ]),
{
    reveal_strlit("{\n      ");
    reveal_strlit(",\n      ");
    reveal_strlit("{\n      \"syscall_nr\": ");
    reveal_strlit(",\n      \"syscall_name\": ");
    reveal_strlit(",\n      \"count\": ");
    reveal_strlit("\"syscall_nr\": ");
    reveal_strlit("\"syscall_name\": ");
    reveal_strlit("\"count\": ");
    let open = "{\n      "@;
    let sep = ",\n      "@;
    let f0 = "\"syscall_nr\": "@ + decimal(c.nr as nat);
    let f1 = "\"syscall_name\": "@ + opt_quoted(c.name);
    let f2 = "\"count\": "@ + decimal(c.count as nat);
    let parts = seq![f0, f1, f2];
    let text = count_json(c);
    assert(text =~= open + f0 + sep + f1 + sep + f2 + "\n    }"@);
    let o0 = open.len() as int;
    let o1 = o0 + f0.len() + sep.len();
    let o2 = o1 + f1.len() + sep.len();
    let at = seq![o0, o1, o2];
    assert(text.subrange(o0, o0 + f0.len()) =~= f0);
    assert(text.subrange(o1, o1 + f1.len()) =~= f1);
    assert(text.subrange(o2, o2 + f2.len()) =~= f2);
    assert forall|i: int| 0 <= i < parts.len() implies occurs_at(text, parts[i], #[trigger] at[i]) by {
        if i == 0 {} else if i == 1 {} else {}
    }
    assert(placed_at(text, parts, at));
}

fn push_opt_quoted(s: &mut String, o: &Option<String>)
    ensures
        final(s)@ == old(s)@ + opt_quoted(match o { Some(x) => Some(x@), None => None }),
{
    match o {
        Some(x) => push_quoted(s, x.as_str()),
        None => s.append("null"),
    }
}

fn push_count_json(s: &mut String, c: &TraceCount)
    ensures
        final(s)@ == old(s)@ + count_json(c@),
{
    s.append("{\n      \"syscall_nr\": ");
    push_decimal(s, c.syscall_nr as u64);
    s.append(",\n      \"syscall_name\": ");
    push_opt_quoted(s, &c.syscall_name);
    s.append(",\n      \"count\": ");
    push_decimal(s, c.count);
    s.append("\n    }");
}

fn push_event_json(s: &mut String, e: &TraceEvent)
    ensures
        final(s)@ == old(s)@ + event_json(e@),
{
    s.append("{\n      \"timestamp_ns\": ");
    push_decimal(s, e.timestamp_ns);
    s.append(",\n      \"tgid\": ");
    push_decimal(s, e.tgid as u64);
    s.append(",\n      \"tid\": ");
    push_decimal(s, e.tid as u64);
    s.append(",\n      \"syscall_nr\": ");
    push_decimal(s, e.syscall_nr as u64);
    s.append(",\n      \"syscall_name\": ");
    push_opt_quoted(s, &e.syscall_name);
    s.append(",\n      \"comm\": ");
    push_quoted(s, e.comm.as_str());
    s.append("\n    }");
}

fn push_counts_array(s: &mut String, counts: &Vec<TraceCount>)
    ensures
        final(s)@ == old(s)@ + array(counts@.map_values(|c: TraceCount| c@).map_values(
            |c: CountView| count_json(c),
        ), 1),
{
    let ghost rendered = counts@.map_values(|c: TraceCount| c@).map_values(|c: CountView| count_json(c));
    if counts.len() == 0 {
        s.append("[]");
        return;
    }
    s.append("[");
    let ghost start = s@;
    let mut i: usize = 0;
    while i < counts.len()
        invariant
            i <= counts.len(),
            rendered == counts@.map_values(|c: TraceCount| c@).map_values(|c: CountView| count_json(c)),
            s@ == start + array_body(prefix(rendered, i), 2),
        decreases counts.len() - i,
    {
        if i == 0 {
            s.append("\n");
        } else {
            s.append(",\n");
        }
        push_indent(s, 2);
        push_count_json(s, &counts[i]);
        assert(rendered.take(i + 1).drop_last() =~= prefix(rendered, i));
        i = i + 1;
    }
    assert(prefix(rendered, counts.len()) =~= rendered);
    s.append("\n");
    push_indent(s, 1);
    s.append("]");
}

fn push_events_array(s: &mut String, events: &Vec<TraceEvent>)
    ensures
        final(s)@ == old(s)@ + array(events@.map_values(|e: TraceEvent| e@).map_values(
            |e: EventView| event_json(e),
        ), 1),
{
    let ghost rendered = events@.map_values(|e: TraceEvent| e@).map_values(|e: EventView| event_json(e));
    if events.len() == 0 {
        s.append("[]");
        return;
    }
    s.append("[");
    let ghost start = s@;
    let mut i: usize = 0;
    while i < events.len()
        invariant
            i <= events.len(),
            rendered == events@.map_values(|e: TraceEvent| e@).map_values(|e: EventView| event_json(e)),
            s@ == start + array_body(prefix(rendered, i), 2),
        decreases events.len() - i,
    {
        if i == 0 {
            s.append("\n");
        } else {
            s.append(",\n");
        }
        push_indent(s, 2);
        push_event_json(s, &events[i]);
        assert(rendered.take(i + 1).drop_last() =~= prefix(rendered, i));
        i = i + 1;
    }
    assert(prefix(rendered, events.len()) =~= rendered);
    s.append("\n");
    push_indent(s, 1);
    s.append("]");
}

/// The trace as pretty-printed JSON.
pub fn to_json(trace: &Trace) -> (s: String)
    ensures
        s@ == trace_json(trace@),
{
    let mut s = String::new();
    s.append("{\n  \"schema_version\": ");
    push_decimal(&mut s, trace.schema_version as u64);
    s.append(",\n  \"arch\": ");
    push_quoted(&mut s, trace.arch.as_str());
    s.append(",\n  \"target_argv\": ");
    push_str_array(&mut s, &trace.target_argv, 1);
    s.append(",\n  \"events\": ");
    push_events_array(&mut s, &trace.events);
    s.append(",\n  \"counts\": ");
    push_counts_array(&mut s, &trace.counts);
    s.append("\n}");
    s
}

} // verus!
