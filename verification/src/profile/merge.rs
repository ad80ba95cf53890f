//! Union multiple traces into one.
//!
//! Per-event detail is dropped on merge: it doesn't compose meaningfully
//! across runs. The merged trace keeps per-syscall counts (summed) and
//! a synthetic `target_argv` recording the inputs.

use std::collections::HashMap;

use vstd::prelude::*;

use super::trace::{CountView, Trace, TraceCount, TraceView};
use super::ProfileError;
use crate::text::{join, lemma_join_step, push_joined, strs};

verus! {

/// The models of a slice of traces.
pub open spec fn views(traces: Seq<Trace>) -> Seq<TraceView> {
    traces.map_values(|t: Trace| t@)
}

/// All counts of all traces, trace by trace, each in its own order.
pub open spec fn flat_counts(traces: Seq<TraceView>) -> Seq<CountView>
    decreases traces.len(),
{
    if traces.len() == 0 {
        Seq::empty()
    } else {
        flat_counts(traces.drop_last()) + traces.last().counts
    }
}

/// The sum of the counts recorded for syscall `nr` in `cs`.
#[verifier::opaque]
pub open spec fn total_of(cs: Seq<CountView>, nr: u32) -> int
    decreases cs.len(),
{
    if cs.len() == 0 {
        0
    } else {
        total_of(cs.drop_last(), nr) + if cs.last().nr == nr { cs.last().count as int } else { 0 }
    }
}

/// The first name recorded for syscall `nr` in `cs`, if any entry for it
/// has one.
#[verifier::opaque]
pub open spec fn first_name(cs: Seq<CountView>, nr: u32) -> Option<Seq<char>>
    decreases cs.len(),
{
    if cs.len() == 0 {
        None
    } else {
        let p = first_name(cs.drop_last(), nr);
        if p is Some {
            p
        } else if cs.last().nr == nr {
            cs.last().name
        } else {
            None
        }
    }
}

/// The architectures, in trace order, that differ from `arch`.
pub open spec fn mismatched(traces: Seq<TraceView>, arch: Seq<char>) -> Seq<Seq<char>>
    decreases traces.len(),
{
    if traces.len() == 0 {
        Seq::empty()
    } else {
        let p = mismatched(traces.drop_last(), arch);
        if traces.last().arch != arch {
            p.push(traces.last().arch)
        } else {
            p
        }
    }
}

/// One input's command, bracketed.
pub open spec fn bracketed(t: TraceView) -> Seq<char> {
    "["@ + join(t.target_argv, " "@) + "]"@
}

/// The synthetic command line of a merged trace.
pub open spec fn merged_argv(traces: Seq<TraceView>) -> Seq<char> {
    "merge of: "@ + join(traces.map_values(|t: TraceView| bracketed(t)), " + "@)
}

/// Counts that never increase along the sequence.
pub open spec fn descending(out: Seq<CountView>) -> bool {
    forall|i: int, j: int| 0 <= i < j < out.len() ==> #[trigger] out[i].count >= #[trigger] out[j].count
}

/// `m` is the merge of `ts`: schema 1, the first trace's architecture,
/// a synthetic command, no events, and one count per syscall number
/// that occurs in any trace, carrying the summed count and the first
/// name recorded, by descending count.
pub open spec fn merged(ts: Seq<TraceView>, m: TraceView) -> bool {
    &&& m.schema_version == 1
    &&& m.arch == ts[0].arch
    &&& m.target_argv == seq![merged_argv(ts)]
    &&& m.events.len() == 0
    &&& aggregates(flat_counts(ts), m.counts)
    &&& descending(m.counts)
}

/// No syscall's summed count overflows a `u64`.
pub open spec fn totals_fit(traces: Seq<TraceView>) -> bool {
    forall|nr: u32| #[trigger] total_of(flat_counts(traces), nr) <= u64::MAX
}

pub proof fn lemma_total_concat(a: Seq<CountView>, b: Seq<CountView>, nr: u32)
    ensures
        total_of(a + b, nr) == total_of(a, nr) + total_of(b, nr),
    decreases b.len(),
{
    reveal(total_of);
    if b.len() == 0 {
        assert(a + b =~= a);
    } else {
        lemma_total_concat(a, b.drop_last(), nr);
        assert((a + b).drop_last() =~= a + b.drop_last());
    }
}

pub proof fn lemma_total_nonneg(a: Seq<CountView>, nr: u32)
    ensures
        total_of(a, nr) >= 0,
    decreases a.len(),
{
    reveal(total_of);
    if a.len() > 0 {
        lemma_total_nonneg(a.drop_last(), nr);
    }
}

pub proof fn lemma_flat_concat(a: Seq<TraceView>, b: Seq<TraceView>)
    ensures
        flat_counts(a + b) == flat_counts(a) + flat_counts(b),
    decreases b.len(),
{
    if b.len() == 0 {
        assert(a + b =~= a);
        assert(flat_counts(a) + flat_counts(b) =~= flat_counts(a));
    } else {
        lemma_flat_concat(a, b.drop_last());
        assert((a + b).drop_last() =~= a + b.drop_last());
        assert(flat_counts(a) + flat_counts(b) =~= flat_counts(a) + flat_counts(b.drop_last()) + b.last().counts);
    }
}

/// The total so far never exceeds the total over all traces.
proof fn lemma_partial_total_bounded(ts: Seq<TraceView>, ti: int, ci: int, nr: u32)
    requires
        0 <= ti < ts.len(),
        0 <= ci <= ts[ti].counts.len(),
    ensures
        total_of(flat_counts(ts.take(ti)) + ts[ti].counts.take(ci), nr) <= total_of(flat_counts(ts), nr),
{
    let rest = ts.skip(ti + 1);
    assert(ts =~= ts.take(ti) + (seq![ts[ti]] + rest));
    lemma_flat_concat(ts.take(ti), seq![ts[ti]] + rest);
    lemma_flat_concat(seq![ts[ti]], rest);
    assert(seq![ts[ti]].drop_last() =~= Seq::<TraceView>::empty());
    assert(flat_counts(Seq::<TraceView>::empty()) =~= Seq::<CountView>::empty());
    assert(flat_counts(seq![ts[ti]]) =~= Seq::<CountView>::empty() + ts[ti].counts);
    assert(flat_counts(seq![ts[ti]]) =~= ts[ti].counts);
    let head = flat_counts(ts.take(ti)) + ts[ti].counts.take(ci);
    let tail = ts[ti].counts.skip(ci) + flat_counts(rest);
    assert(flat_counts(ts) =~= head + tail);
    lemma_total_concat(head, tail, nr);
    lemma_total_nonneg(tail, nr);
}

/// The per-trace totals for syscall `nr`, added up over the traces.
pub open spec fn sum_of_totals(traces: Seq<TraceView>, nr: u32) -> int
    decreases traces.len(),
{
    if traces.len() == 0 {
        0
    } else {
        sum_of_totals(traces.drop_last(), nr) + total_of(traces.last().counts, nr)
    }
}

/// A merged count is the sum, over the input traces, of each trace's
/// counts for that syscall.
pub proof fn lemma_merged_count_is_sum(ts: Seq<TraceView>, m: TraceView, i: int)
    requires
        merged(ts, m),
        0 <= i < m.counts.len(),
    ensures
        m.counts[i].count == sum_of_totals(ts, m.counts[i].nr),
{
    reveal(entries_summed);
    assert(m.counts[i].count == total_of(flat_counts(ts), m.counts[i].nr));
    lemma_flat_total(ts, m.counts[i].nr);
}

proof fn lemma_flat_total(ts: Seq<TraceView>, nr: u32)
    ensures
        total_of(flat_counts(ts), nr) == sum_of_totals(ts, nr),
    decreases ts.len(),
{
    reveal(total_of);
    if ts.len() == 0 {
        assert(flat_counts(ts) =~= Seq::<CountView>::empty());
    } else {
        lemma_flat_total(ts.drop_last(), nr);
        lemma_total_concat(flat_counts(ts.drop_last()), ts.last().counts, nr);
    }
}

/// The counts of `a` followed by those of `b`.
pub open spec fn pair_counts(a: TraceView, b: TraceView) -> Seq<CountView> {
    a.counts + b.counts
}

proof fn lemma_pair_flat(a: TraceView, b: TraceView, nr: u32)
    ensures
        flat_counts(seq![a, b]) == pair_counts(a, b),
        sum_of_totals(seq![a, b], nr) == total_of(a.counts, nr) + total_of(b.counts, nr),
{
    assert(seq![a, b].drop_last() =~= seq![a]);
    assert(seq![a].drop_last() =~= Seq::<TraceView>::empty());
    assert(flat_counts(Seq::<TraceView>::empty()) =~= Seq::<CountView>::empty());
    assert(flat_counts(seq![a]) =~= a.counts);
    assert(seq![a, b].last() == b);
    assert(seq![a].last() == a);
    assert(sum_of_totals(Seq::<TraceView>::empty(), nr) == 0);
    assert(sum_of_totals(seq![a], nr) == total_of(a.counts, nr));
}

/// The counts of two traces, in either order, hold the same syscall
/// numbers.
proof fn lemma_present_in_other(a: TraceView, b: TraceView, k: int)
    requires
        0 <= k < pair_counts(a, b).len(),
    ensures
        exists|k2: int| 0 <= k2 < pair_counts(b, a).len() && #[trigger] pair_counts(b, a)[k2].nr == pair_counts(a, b)[k].nr,
{
    let f1 = pair_counts(a, b);
    let f2 = pair_counts(b, a);
    if k < a.counts.len() {
        assert(f1[k] == a.counts[k]);
        assert(f2[b.counts.len() + k] == a.counts[k]);
        assert(0 <= b.counts.len() + k < f2.len() && f2[b.counts.len() + k].nr == f1[k].nr);
    } else {
        assert(f1[k] == b.counts[k - a.counts.len()]);
        assert(f2[k - a.counts.len()] == b.counts[k - a.counts.len()]);
        assert(f2[k - a.counts.len()].nr == f1[k].nr);
    }
}

/// Every syscall of one merge of `a` and `b` is in the other with the
/// same summed count.
proof fn lemma_merge_entry_in_other(a: TraceView, b: TraceView, m1: TraceView, m2: TraceView, i: int)
    requires
        merged(seq![a, b], m1),
        merged(seq![b, a], m2),
        0 <= i < m1.counts.len(),
    ensures
        exists|j: int| 0 <= j < m2.counts.len() && m2.counts[j].nr == m1.counts[i].nr
            && m2.counts[j].count == m1.counts[i].count,
{
    let nr = m1.counts[i].nr;
    lemma_pair_flat(a, b, nr);
    lemma_pair_flat(b, a, nr);
    lemma_merged_count_is_sum(seq![a, b], m1, i);
    reveal(sourced);
    reveal(covers);
    assert(has_nr(pair_counts(a, b), nr));
    let k = choose|k: int| 0 <= k < pair_counts(a, b).len() && #[trigger] pair_counts(a, b)[k].nr == nr;
    lemma_present_in_other(a, b, k);
    let k2 = choose|k2: int| 0 <= k2 < pair_counts(b, a).len() && #[trigger] pair_counts(b, a)[k2].nr == nr;
    assert(has_nr(m2.counts, pair_counts(b, a)[k2].nr));
    let j = choose|j: int| 0 <= j < m2.counts.len() && #[trigger] m2.counts[j].nr == nr;
    lemma_merged_count_is_sum(seq![b, a], m2, j);
    assert(sum_of_totals(seq![a, b], nr) == sum_of_totals(seq![b, a], nr));
}

/// Merging `a` then `b`, or `b` then `a`, gives the same syscalls with the
/// same summed counts (only the first-seen names and the order of equal
/// counts can differ).
pub proof fn lemma_merge_totals_commute(a: TraceView, b: TraceView, m1: TraceView, m2: TraceView)
    requires
        merged(seq![a, b], m1),
        merged(seq![b, a], m2),
    ensures
        forall|i: int| 0 <= i < m1.counts.len() ==> exists|j: int| 0 <= j < m2.counts.len()
            && m2.counts[j].nr == (#[trigger] m1.counts[i]).nr && m2.counts[j].count == m1.counts[i].count,
        forall|j: int| 0 <= j < m2.counts.len() ==> exists|i: int| 0 <= i < m1.counts.len()
            && m1.counts[i].nr == (#[trigger] m2.counts[j]).nr && m1.counts[i].count == m2.counts[j].count,
{
    assert forall|i: int| 0 <= i < m1.counts.len() implies exists|j: int| 0 <= j < m2.counts.len()
        && m2.counts[j].nr == (#[trigger] m1.counts[i]).nr && m2.counts[j].count == m1.counts[i].count by {
        lemma_merge_entry_in_other(a, b, m1, m2, i);
    }
    assert forall|j: int| 0 <= j < m2.counts.len() implies exists|i: int| 0 <= i < m1.counts.len()
        && m1.counts[i].nr == (#[trigger] m2.counts[j]).nr && m1.counts[i].count == m2.counts[j].count by {
        lemma_merge_entry_in_other(b, a, m2, m1, j);
    }
}

fn arch_mismatches(traces: &[Trace], arch: &String) -> (r: Vec<String>)
    ensures
        strs(r@) == mismatched(views(traces@), arch@),
{
    let ghost ts = views(traces@);
    let mut r: Vec<String> = Vec::new();
    let mut i: usize = 0;
    while i < traces.len()
        invariant
            i <= traces.len(),
            ts == views(traces@),
            strs(r@) == mismatched(ts.take(i as int), arch@),
        decreases traces.len() - i,
    {
        assert(ts.take(i + 1).drop_last() =~= ts.take(i as int));
        if traces[i].arch != *arch {
            r.push(traces[i].arch.clone());
            assert(strs(r@) =~= mismatched(ts.take(i as int), arch@).push(traces[i as int].arch@));
        }
        i = i + 1;
    }
    assert(ts.take(traces.len() as int) =~= ts);
    r
}

/// No two entries carry the same syscall number.
#[verifier::opaque]
pub open spec fn distinct_nrs(agg: Seq<CountView>) -> bool {
    forall|i: int, j: int| 0 <= i < j < agg.len() ==> #[trigger] agg[i].nr != #[trigger] agg[j].nr
}

/// Each entry carries the summed count and first name of its syscall.
#[verifier::opaque]
pub open spec fn entries_summed(flat: Seq<CountView>, agg: Seq<CountView>) -> bool {
    forall|i: int| 0 <= i < agg.len() ==> (#[trigger] agg[i]).count == total_of(flat, agg[i].nr)
        && agg[i].name == first_name(flat, agg[i].nr)
}

/// Every syscall number of `flat` has an entry.
#[verifier::opaque]
pub open spec fn covers(flat: Seq<CountView>, agg: Seq<CountView>) -> bool {
    forall|k: int| 0 <= k < flat.len() ==> has_nr(agg, #[trigger] flat[k].nr)
}

/// Some entry of `s` carries syscall number `nr`.
pub open spec fn has_nr(s: Seq<CountView>, nr: u32) -> bool {
    exists|i: int| 0 <= i < s.len() && #[trigger] s[i].nr == nr
}

/// Every entry's syscall number occurs in `flat`.
#[verifier::opaque]
pub open spec fn sourced(flat: Seq<CountView>, agg: Seq<CountView>) -> bool {
    forall|i: int| 0 <= i < agg.len() ==> has_nr(flat, #[trigger] agg[i].nr)
}

/// The aggregation invariant: `agg` summarizes the counts seen so far.
pub open spec fn aggregates(flat: Seq<CountView>, agg: Seq<CountView>) -> bool {
    &&& distinct_nrs(agg)
    &&& entries_summed(flat, agg)
    &&& covers(flat, agg)
    &&& sourced(flat, agg)
}

/// Models of a vector of counts.
pub open spec fn count_views(v: Seq<TraceCount>) -> Seq<CountView> {
    v.map_values(|c: TraceCount| c@)
}

/// How the running total and first name change when one more count is
/// seen.
proof fn lemma_push_step(flat: Seq<CountView>, c: CountView, nr: u32)
    ensures
        total_of(flat.push(c), nr) == total_of(flat, nr) + (if c.nr == nr { c.count as int } else { 0 }),
        first_name(flat.push(c), nr) == (if first_name(flat, nr) is Some {
            first_name(flat, nr)
        } else if c.nr == nr {
            c.name
        } else {
            None
        }),
{
    reveal(total_of);
    reveal(first_name);
    assert(flat.push(c).drop_last() =~= flat);
}

fn clone_name(o: &Option<String>) -> (r: Option<String>)
    ensures
        r == *o,
{
    match o {
        Some(n) => Some(n.clone()),
        None => None,
    }
}

proof fn lemma_not_occurring(flat: Seq<CountView>, nr: u32)
    requires
        forall|k: int| 0 <= k < flat.len() ==> #[trigger] flat[k].nr != nr,
    ensures
        total_of(flat, nr) == 0,
        first_name(flat, nr) is None,
    decreases flat.len(),
{
    reveal(total_of);
    reveal(first_name);
    if flat.len() > 0 {
        assert forall|k: int| 0 <= k < flat.drop_last().len() implies #[trigger] flat.drop_last()[k].nr != nr by {
            assert(flat.drop_last()[k] == flat[k]);
        }
        lemma_not_occurring(flat.drop_last(), nr);
    }
}

/// The running totals, keyed by syscall number: the keys are exactly
/// the numbers seen, each mapped to its entry with the summed count and
/// the first name recorded.
pub open spec fn totals_by_nr(flat: Seq<CountView>, m: Map<u32, TraceCount>) -> bool {
    &&& forall|k: u32| #[trigger] m.contains_key(k) <==> has_nr(flat, k)
    &&& forall|k: u32| #[trigger] m.contains_key(k) ==> m[k]@.nr == k
        && m[k]@.count == total_of(flat, k) && m[k]@.name == first_name(flat, k)
}

proof fn lemma_has_nr_push(flat: Seq<CountView>, c: CountView, k: u32)
    ensures
        has_nr(flat.push(c), k) <==> has_nr(flat, k) || c.nr == k,
{
    let f2 = flat.push(c);
    if has_nr(flat, k) {
        let i = choose|i: int| 0 <= i < flat.len() && #[trigger] flat[i].nr == k;
        assert(f2[i] == flat[i]);
    }
    if c.nr == k {
        assert(f2[flat.len() as int] == c);
    }
    if has_nr(f2, k) {
        let i = choose|i: int| 0 <= i < f2.len() && #[trigger] f2[i].nr == k;
        if i < flat.len() {
            assert(f2[i] == flat[i]);
        }
    }
}

/// A syscall number not seen yet has a total of zero and no name.
proof fn lemma_unseen(flat: Seq<CountView>, nr: u32)
    requires
        !has_nr(flat, nr),
    ensures
        total_of(flat, nr) == 0,
        first_name(flat, nr) is None,
{
    assert forall|k: int| 0 <= k < flat.len() implies #[trigger] flat[k].nr != nr by {
        if flat[k].nr == nr {
            assert(has_nr(flat, nr));
        }
    }
    lemma_not_occurring(flat, nr);
}

/// Adds one count to the running totals.
fn add_count(by_nr: &mut HashMap<u32, TraceCount>, c: &TraceCount, Ghost(flat): Ghost<Seq<CountView>>)
    requires
        totals_by_nr(flat, old(by_nr)@),
        total_of(flat.push(c@), c.syscall_nr) <= u64::MAX,
    ensures
        totals_by_nr(flat.push(c@), final(by_nr)@),
{
    broadcast use vstd::std_specs::hash::group_hash_axioms;
    proof {
        lemma_push_step(flat, c@, c.syscall_nr);
        lemma_total_nonneg(flat, c.syscall_nr);
    }
    let entry = match by_nr.get(&c.syscall_nr) {
        Some(e) => {
            let name = if e.syscall_name.is_some() {
                clone_name(&e.syscall_name)
            } else {
                clone_name(&c.syscall_name)
            };
            TraceCount { syscall_nr: c.syscall_nr, syscall_name: name, count: e.count + c.count }
        },
        None => {
            proof {
                lemma_unseen(flat, c.syscall_nr);
            }
            TraceCount { syscall_nr: c.syscall_nr, syscall_name: clone_name(&c.syscall_name), count: c.count }
        },
    };
    let ghost old_m = by_nr@;
    by_nr.insert(c.syscall_nr, entry);
    proof {
        let f2 = flat.push(c@);
        assert forall|k: u32| #[trigger] by_nr@.contains_key(k) <==> has_nr(f2, k) by {
            lemma_has_nr_push(flat, c@, k);
        }
        assert forall|k: u32| #[trigger] by_nr@.contains_key(k) implies by_nr@[k]@.nr == k
            && by_nr@[k]@.count == total_of(f2, k) && by_nr@[k]@.name == first_name(f2, k) by {
            if k != c.syscall_nr {
                lemma_push_step(flat, c@, k);
                assert(old_m.contains_key(k));
            }
        }
    }
}

/// The entries of the running totals, one per key.
fn entries_of(by_nr: &HashMap<u32, TraceCount>, Ghost(flat): Ghost<Seq<CountView>>) -> (agg: Vec<TraceCount>)
    requires
        totals_by_nr(flat, by_nr@),
    ensures
        aggregates(flat, count_views(agg@)),
{
    broadcast use vstd::std_specs::hash::group_hash_axioms;
    let mut agg: Vec<TraceCount> = Vec::new();
    let ghost ks = vstd::std_specs::iter::IteratorSpec::remaining(&vstd::std_specs::hash::spec_keys_iter(by_nr));
    for k in it: by_nr.keys()
        invariant
            totals_by_nr(flat, by_nr@),
            it.seq() == ks,
            ks.unref().to_set() == by_nr@.dom(),
            ks.no_duplicates(),
            agg.len() == it.index(),
            forall|i: int| 0 <= i < agg.len() ==> (#[trigger] agg@[i]).syscall_nr == *ks[i]
                && agg@[i]@ == by_nr@[*ks[i]]@,
        ensures
            agg.len() == ks.len(),
    {
        assert(ks.unref()[it.index()] == *k);
        assert(ks.unref().to_set().contains(*k));
        match by_nr.get(k) {
            Some(e) => {
                agg.push(copy_count(e));
            },
            None => {},
        }
    }
    proof {
        let av = count_views(agg@);
        reveal(distinct_nrs);
        reveal(entries_summed);
        reveal(covers);
        reveal(sourced);
        assert forall|i: int, j: int| 0 <= i < j < av.len() implies #[trigger] av[i].nr != #[trigger] av[j].nr by {
            assert(av[i].nr == *ks[i]);
            assert(av[j].nr == *ks[j]);
        }
        assert forall|i: int| 0 <= i < av.len() implies (#[trigger] av[i]).count == total_of(flat, av[i].nr)
            && av[i].name == first_name(flat, av[i].nr) && has_nr(flat, av[i].nr) by {
            assert(ks.unref()[i] == *ks[i]);
            assert(ks.unref().to_set().contains(*ks[i]));
            assert(by_nr@.contains_key(*ks[i]));
        }
        assert forall|k: int| 0 <= k < flat.len() implies has_nr(av, #[trigger] flat[k].nr) by {
            let n = flat[k].nr;
            assert(has_nr(flat, n));
            assert(by_nr@.contains_key(n));
            assert(ks.unref().to_set().contains(n));
            let i = choose|i: int| 0 <= i < ks.unref().len() && ks.unref()[i] == n;
            assert(av[i].nr == n);
        }
    }
    agg
}

fn aggregate(traces: &[Trace]) -> (agg: Vec<TraceCount>)
    requires
        totals_fit(views(traces@)),
    ensures
        aggregates(flat_counts(views(traces@)), count_views(agg@)),
{
    broadcast use vstd::std_specs::hash::group_hash_axioms;
    let ghost ts = views(traces@);
    let mut by_nr: HashMap<u32, TraceCount> = HashMap::new();
    proof {
        assert(ts.take(0) =~= Seq::<TraceView>::empty());
        assert(flat_counts(ts.take(0)) =~= Seq::<CountView>::empty());
    }
    let mut ti: usize = 0;
    while ti < traces.len()
        invariant
            ti <= traces.len(),
            ts == views(traces@),
            totals_fit(ts),
            totals_by_nr(flat_counts(ts.take(ti as int)), by_nr@),
        decreases traces.len() - ti,
    {
        let t = &traces[ti];
        let ghost base = flat_counts(ts.take(ti as int));
        let ghost tc = ts[ti as int].counts;
        assert(tc == t.counts@.map_values(|c: TraceCount| c@));
        assert(base + tc.take(0) =~= base);
        let mut ci: usize = 0;
        while ci < t.counts.len()
            invariant
                ti < traces.len(),
                ci <= t.counts.len(),
                ts == views(traces@),
                totals_fit(ts),
                t == traces@[ti as int],
                tc == ts[ti as int].counts,
                tc == t.counts@.map_values(|c: TraceCount| c@),
                base == flat_counts(ts.take(ti as int)),
                totals_by_nr(base + tc.take(ci as int), by_nr@),
            decreases t.counts.len() - ci,
        {
            let c = &t.counts[ci];
            proof {
                assert(tc[ci as int] == c@);
                assert((base + tc.take(ci as int)).push(c@) =~= base + tc.take(ci + 1));
                lemma_partial_total_bounded(ts, ti as int, ci + 1, c.syscall_nr);
            }
            add_count(&mut by_nr, c, Ghost(base + tc.take(ci as int)));
            ci = ci + 1;
        }
        proof {
            assert(tc.take(ci as int) =~= tc);
            assert(ts.take(ti + 1).drop_last() =~= ts.take(ti as int));
        }
        ti = ti + 1;
    }
    assert(ts.take(traces.len() as int) =~= ts);
    entries_of(&by_nr, Ghost(flat_counts(ts)))
}

fn copy_count(c: &TraceCount) -> (r: TraceCount)
    ensures
        r@ == c@,
{
    TraceCount { syscall_nr: c.syscall_nr, syscall_name: clone_name(&c.syscall_name), count: c.count }
}

/// Entries that are exactly those of an aggregate, with distinct syscall
/// numbers, form an aggregate too.
proof fn lemma_same_entries(flat: Seq<CountView>, a: Seq<CountView>, b: Seq<CountView>)
    requires
        aggregates(flat, a),
        distinct_nrs(b),
        forall|x: CountView| #[trigger] b.contains(x) <==> a.contains(x),
    ensures
        aggregates(flat, b),
{
    reveal(entries_summed);
    reveal(covers);
    reveal(sourced);
    assert forall|i: int| 0 <= i < b.len() implies (#[trigger] b[i]).count == total_of(flat, b[i].nr)
        && b[i].name == first_name(flat, b[i].nr) && has_nr(flat, b[i].nr) by {
        assert(b.contains(b[i]));
        let j = choose|j: int| 0 <= j < a.len() && a[j] == b[i];
        assert(has_nr(flat, a[j].nr));
    }
    assert forall|k: int| 0 <= k < flat.len() implies has_nr(b, #[trigger] flat[k].nr) by {
        assert(has_nr(a, flat[k].nr));
        let j = choose|j: int| 0 <= j < a.len() && #[trigger] a[j].nr == flat[k].nr;
        assert(a.contains(a[j]));
        assert(b.contains(a[j]));
        let i = choose|i: int| 0 <= i < b.len() && b[i] == a[j];
        assert(b[i].nr == flat[k].nr);
    }
}

/// Where an entry with `count` goes among `out` so that it follows every
/// entry with at least that count.
fn insert_position(out: &Vec<TraceCount>, count: u64) -> (p: usize)
    requires
        descending(count_views(out@)),
    ensures
        p <= out.len(),
        forall|a: int| 0 <= a < p ==> (#[trigger] out@[a]).count >= count,
        forall|b: int| p <= b < out.len() ==> (#[trigger] out@[b]).count < count,
{
    let ghost ov = count_views(out@);
    let mut p: usize = 0;
    while p < out.len() && out[p].count >= count
        invariant
            p <= out.len(),
            ov == count_views(out@),
            forall|a: int| 0 <= a < p ==> (#[trigger] out@[a]).count >= count,
        decreases out.len() - p,
    {
        p = p + 1;
    }
    assert forall|b: int| p <= b < out.len() implies (#[trigger] out@[b]).count < count by {
        assert(ov[p as int].count >= ov[b].count);
        assert(ov[b].count == out@[b].count);
    }
    p
}

/// Orders the entries by descending count, keeping equal counts in their
/// order.
fn sort_by_count_desc(agg: &Vec<TraceCount>) -> (out: Vec<TraceCount>)
    requires
        distinct_nrs(count_views(agg@)),
    ensures
        descending(count_views(out@)),
        distinct_nrs(count_views(out@)),
        forall|x: CountView| #[trigger] count_views(out@).contains(x) <==> count_views(agg@).contains(x),
{
    let ghost av = count_views(agg@);
    let mut out: Vec<TraceCount> = Vec::new();
    let mut i: usize = 0;
    proof {
        reveal(distinct_nrs);
    }
    while i < agg.len()
        invariant
            i <= agg.len(),
            av == count_views(agg@),
            distinct_nrs(av),
            descending(count_views(out@)),
            distinct_nrs(count_views(out@)),
            forall|x: CountView| #[trigger] count_views(out@).contains(x) <==> av.take(i as int).contains(x),
        decreases agg.len() - i,
    {
        let e = copy_count(&agg[i]);
        assert(e@ == av[i as int]);
        let ghost ov = count_views(out@);
        let ghost old_out = out@;
        let p = insert_position(&out, e.count);
        out.insert(p, e);
        proof {
            reveal(distinct_nrs);
            let nv = count_views(out@);
            assert(nv =~= ov.insert(p as int, av[i as int]));
            assert forall|a: int, b: int| 0 <= a < b < nv.len() implies #[trigger] nv[a].count >= #[trigger] nv[b].count by {
                if a < p && b > p {
                    assert(ov[a].count >= ov[b - 1].count);
                } else if a < p && b == p {
                    assert(ov[a].count == out@[a].count);
                } else if a == p && b > p {
                    assert(ov[b - 1].count == old_out[b - 1].count);
                } else if a > p {
                    assert(ov[a - 1].count >= ov[b - 1].count);
                }
            }
            assert forall|x: CountView| #[trigger] nv.contains(x) <==> av.take(i + 1).contains(x) by {
                if nv.contains(x) {
                    let k = choose|k: int| 0 <= k < nv.len() && nv[k] == x;
                    if k < p {
                        assert(ov.contains(ov[k]));
                        let j = choose|j: int| 0 <= j < i && av.take(i as int)[j] == ov[k];
                        assert(av.take(i + 1)[j] == x);
                    } else if k > p {
                        assert(ov.contains(ov[k - 1]));
                        let j = choose|j: int| 0 <= j < i && av.take(i as int)[j] == ov[k - 1];
                        assert(av.take(i + 1)[j] == x);
                    } else {
                        assert(av.take(i + 1)[i as int] == x);
                    }
                }
                if av.take(i + 1).contains(x) {
                    let j = choose|j: int| 0 <= j <= i && #[trigger] av.take(i + 1)[j] == x;
                    if j < i {
                        assert(av.take(i as int)[j] == x);
                        assert(av.take(i as int).contains(x));
                        assert(count_views(old_out).contains(x));
                        assert(ov.contains(x));
                        let k = choose|k: int| 0 <= k < ov.len() && ov[k] == x;
                        if k < p {
                            assert(nv[k] == x);
                        } else {
                            assert(nv[k + 1] == x);
                        }
                    } else {
                        assert(nv[p as int] == x);
                    }
                }
            }
            assert forall|a: int, b: int| 0 <= a < b < nv.len() implies #[trigger] nv[a].nr != #[trigger] nv[b].nr by {
                if a != p && b != p {
                    let a0 = if a < p { a } else { a - 1 };
                    let b0 = if b < p { b } else { b - 1 };
                    assert(nv[a] == ov[a0]);
                    assert(nv[b] == ov[b0]);
                } else {
                    let o = if a == p { b } else { a };
                    let o0 = if o < p { o } else { o - 1 };
                    assert(nv[o] == ov[o0]);
                    assert(ov.contains(ov[o0]));
                    let j = choose|j: int| 0 <= j < i && av.take(i as int)[j] == ov[o0];
                    assert(av[j] == ov[o0]);
                    assert(av[j].nr != av[i as int].nr);
                }
            }
        }
        i = i + 1;
    }
    assert(av.take(agg.len() as int) =~= av);
    out
}

fn merged_command(traces: &[Trace]) -> (s: String)
    ensures
        s@ == merged_argv(views(traces@)),
{
    let ghost ts = views(traces@);
    let ghost items = ts.map_values(|t: TraceView| bracketed(t));
    let mut s = String::new();
    s.append("merge of: ");
    let ghost start = s@;
    let mut i: usize = 0;
    while i < traces.len()
        invariant
            i <= traces.len(),
            ts == views(traces@),
            items == ts.map_values(|t: TraceView| bracketed(t)),
            s@ == start + join(items.take(i as int), " + "@),
        decreases traces.len() - i,
    {
        if i > 0 {
            s.append(" + ");
        }
        s.append("[");
        push_joined(&mut s, &traces[i].target_argv, " ");
        s.append("]");
        proof {
            assert(items[i as int] == bracketed(traces@[i as int]@));
            lemma_join_step(items, " + "@, i as int);
        }
        i = i + 1;
    }
    assert(items.take(traces.len() as int) =~= items);
    s
}

/// Merges traces of one architecture: counts of the same syscall number
/// are summed and carry the first name any input recorded for it, the
/// result is ordered by descending count, events are dropped, and the
/// command records the inputs. Zero traces, or traces of differing
/// architectures, are refused.
pub fn merge(traces: &[Trace]) -> (r: Result<Trace, ProfileError>)
    requires
        traces@.len() > 0 && mismatched(views(traces@), views(traces@)[0].arch).len() == 0
            ==> totals_fit(views(traces@)),
    ensures
        match r {
            Ok(m) => traces@.len() > 0
                && mismatched(views(traces@), views(traces@)[0].arch).len() == 0
                && merged(views(traces@), m@),
            Err(e) => if traces@.len() == 0 {
                e is EmptyMerge
            } else {
                mismatched(views(traces@), views(traces@)[0].arch).len() > 0
                    && (e matches ProfileError::ArchMismatch(v)
                        && strs(v@) == seq![views(traces@)[0].arch] + mismatched(views(traces@), views(traces@)[0].arch))
            },
        },
{
    let ghost ts = views(traces@);
    if traces.len() == 0 {
        return Err(ProfileError::EmptyMerge);
    }
    let arch = traces[0].arch.clone();
    assert(arch@ == ts[0].arch);
    let mut mm = arch_mismatches(traces, &arch);
    if mm.len() > 0 {
        let ghost tail = strs(mm@);
        let mut all: Vec<String> = Vec::new();
        all.push(arch);
        all.append(&mut mm);
        assert(strs(all@) =~= seq![ts[0].arch] + tail);
        return Err(ProfileError::ArchMismatch(all));
    }
    let agg = aggregate(traces);
    let counts = sort_by_count_desc(&agg);
    proof {
        lemma_same_entries(flat_counts(ts), count_views(agg@), count_views(counts@));
    }
    let cmd = merged_command(traces);
    let mut argv: Vec<String> = Vec::new();
    argv.push(cmd);
    let m = Trace {
        schema_version: 1,
        arch: traces[0].arch.clone(),
        target_argv: argv,
        events: Vec::new(),
        counts,
    };
    assert(m@.target_argv =~= seq![merged_argv(ts)]);
    Ok(m)
}

} // verus!
