//! Canonical trace data type that flows from the tracer to the emitters.

use vstd::prelude::*;

use crate::text::{lemma_seq_lt_transitive, lemma_seq_lt_trichotomy, lemma_sorted_of, lists_exactly,
    seq_lt, sorted_of, string_lt, strictly_sorted, strs};

verus! {

/// One full recorded session: argv, per-event log, and per-syscall counts.
#[derive(Debug, Clone)]
pub struct Trace {
    /// Bumped whenever the on-disk JSON layout changes incompatibly.
    pub schema_version: u32,
    /// Architecture token matching `uname -m` (`x86_64`, `aarch64`).
    pub arch: String,
    /// Command line (or synthetic descriptor like `pid:1234`).
    pub target_argv: Vec<String>,
    /// Per-event log, in order of arrival on the ring buffer.
    pub events: Vec<TraceEvent>,
    /// Per-syscall counts, sorted by descending count.
    pub counts: Vec<TraceCount>,
}

/// One observed syscall entry.
#[derive(Debug, Clone)]
pub struct TraceEvent {
    pub timestamp_ns: u64,
    pub tgid: u32,
    pub tid: u32,
    pub syscall_nr: u32,
    pub syscall_name: Option<String>,
    pub comm: String,
}

/// How often one syscall was observed.
#[derive(Debug, Clone)]
pub struct TraceCount {
    pub syscall_nr: u32,
    pub syscall_name: Option<String>,
    pub count: u64,
}

/// Mathematical model of a [`TraceCount`].
pub struct CountView {
    pub nr: u32,
    pub name: Option<Seq<char>>,
    pub count: u64,
}

/// Mathematical model of a [`TraceEvent`].
pub struct EventView {
    pub timestamp_ns: u64,
    pub tgid: u32,
    pub tid: u32,
    pub nr: u32,
    pub name: Option<Seq<char>>,
    pub comm: Seq<char>,
}

/// Mathematical model of a [`Trace`].
pub struct TraceView {
    pub schema_version: u32,
    pub arch: Seq<char>,
    pub target_argv: Seq<Seq<char>>,
    pub events: Seq<EventView>,
    pub counts: Seq<CountView>,
}

/// The character sequence of an optional string.
pub open spec fn opt_str(o: Option<String>) -> Option<Seq<char>> {
    match o {
        Some(s) => Some(s@),
        None => None,
    }
}

impl View for TraceCount {
    type V = CountView;

    open spec fn view(&self) -> CountView {
        CountView { nr: self.syscall_nr, name: opt_str(self.syscall_name), count: self.count }
    }
}

impl View for TraceEvent {
    type V = EventView;

    open spec fn view(&self) -> EventView {
        EventView {
            timestamp_ns: self.timestamp_ns,
            tgid: self.tgid,
            tid: self.tid,
            nr: self.syscall_nr,
            name: opt_str(self.syscall_name),
            comm: self.comm@,
        }
    }
}

impl View for Trace {
    type V = TraceView;

    open spec fn view(&self) -> TraceView {
        TraceView {
            schema_version: self.schema_version,
            arch: self.arch@,
            target_argv: strs(self.target_argv@),
            events: self.events@.map_values(|e: TraceEvent| e@),
            counts: self.counts@.map_values(|c: TraceCount| c@),
        }
    }
}

/// The resolved names that occur among `counts`.
pub open spec fn name_set(counts: Seq<CountView>) -> Set<Seq<char>> {
    Set::new(|n: Seq<char>| exists|i: int| 0 <= i < counts.len() && #[trigger] counts[i].name == Some(n))
}

/// The resolved names among `counts`, ascending, each once.
pub open spec fn sorted_names(counts: Seq<CountView>) -> Seq<Seq<char>> {
    sorted_of(name_set(counts))
}

/// The resolved names of a trace form a finite set.
pub proof fn lemma_name_set_finite(counts: Seq<CountView>)
    ensures
        name_set(counts).finite(),
    decreases counts.len(),
{
    if counts.len() == 0 {
        assert(name_set(counts) =~= Set::empty());
    } else {
        let init = counts.drop_last();
        lemma_name_set_finite(init);
        let extra = match counts.last().name {
            Some(n) => Set::empty().insert(n),
            None => Set::empty(),
        };
        assert forall|n: Seq<char>| #[trigger] name_set(counts).contains(n) <==> (name_set(init).contains(n) || extra.contains(n)) by {
            if name_set(counts).contains(n) {
                let i = choose|i: int| 0 <= i < counts.len() && #[trigger] counts[i].name == Some(n);
                if i < counts.len() - 1 {
                    assert(init[i].name == Some(n));
                }
            }
            if name_set(init).contains(n) {
                let i = choose|i: int| 0 <= i < init.len() && #[trigger] init[i].name == Some(n);
                assert(counts[i].name == Some(n));
            }
            if extra.contains(n) {
                assert(counts[counts.len() - 1].name == Some(n));
            }
        }
        assert(name_set(counts) =~= name_set(init).union(extra));
    }
}

/// Inserts `s` into the ascending duplicate-free list `v`, unless it is
/// there already.
pub fn insert_sorted_unique(v: &mut Vec<String>, s: String)
    requires
        strictly_sorted(strs(old(v)@)),
    ensures
        strictly_sorted(strs(final(v)@)),
        forall|x: Seq<char>| #[trigger] strs(final(v)@).contains(x) <==> (strs(old(v)@).contains(x) || x == s@),
{
    let ghost old_s = strs(v@);
    let mut i: usize = 0;
    while i < v.len() && string_lt(v[i].as_str(), s.as_str())
        invariant
            i <= v.len(),
            strs(v@) == old_s,
            strictly_sorted(old_s),
            forall|j: int| 0 <= j < i ==> seq_lt(#[trigger] old_s[j], s@),
        decreases v.len() - i,
    {
        i = i + 1;
    }
    if i < v.len() && v[i] == s {
        assert(old_s[i as int] == s@);
        assert forall|x: Seq<char>| #[trigger] strs(v@).contains(x) <==> (old_s.contains(x) || x == s@) by {
            if x == s@ {
                assert(old_s[i as int] == x);
            }
        }
        return;
    }
    proof {
        if i < v.len() {
            lemma_seq_lt_trichotomy(old_s[i as int], s@);
        }
    }
    v.insert(i, s);
    let ghost new_s = strs(v@);
    assert(new_s =~= old_s.insert(i as int, s@));
    assert forall|a: int, b: int| 0 <= a < b < new_s.len() implies seq_lt(#[trigger] new_s[a], #[trigger] new_s[b]) by {
        if b < i {
        } else if b == i {
        } else if a < i {
            assert(seq_lt(old_s[a], s@));
            if b - 1 > i {
                assert(seq_lt(old_s[i as int], old_s[b - 1]));
                lemma_seq_lt_transitive(s@, old_s[i as int], old_s[b - 1]);
            }
            lemma_seq_lt_transitive(old_s[a], s@, old_s[b - 1]);
        } else if a == i {
            if b - 1 > i {
                assert(seq_lt(old_s[i as int], old_s[b - 1]));
                lemma_seq_lt_transitive(s@, old_s[i as int], old_s[b - 1]);
            }
        } else {
        }
    }
    assert forall|x: Seq<char>| #[trigger] new_s.contains(x) <==> (old_s.contains(x) || x == s@) by {
        if new_s.contains(x) {
            let k = choose|k: int| 0 <= k < new_s.len() && new_s[k] == x;
            if k < i {
                assert(old_s[k] == x);
            } else if k > i {
                assert(old_s[k - 1] == x);
            }
        }
        if old_s.contains(x) {
            let k = choose|k: int| 0 <= k < old_s.len() && old_s[k] == x;
            if k < i {
                assert(new_s[k] == x);
            } else {
                assert(new_s[k + 1] == x);
            }
        }
        if x == s@ {
            assert(new_s[i as int] == x);
        }
    }
}

impl Trace {
    /// Sorted, deduplicated list of syscall names observed in this trace.
    /// Entries with no resolved name (e.g., out-of-table syscall numbers)
    /// are skipped because the emitters need a name.
    pub fn unique_syscall_names(&self) -> (names: Vec<String>)
        ensures
            strs(names@) == sorted_names(self@.counts),
            strictly_sorted(strs(names@)),
            lists_exactly(strs(names@), name_set(self@.counts)),
    {
        let mut names: Vec<String> = Vec::new();
        let ghost counts = self@.counts;
        let mut i: usize = 0;
        while i < self.counts.len()
            invariant
                i <= self.counts.len(),
                counts == self@.counts,
                strictly_sorted(strs(names@)),
                forall|x: Seq<char>| #[trigger] strs(names@).contains(x) <==>
                    (exists|j: int| 0 <= j < i && #[trigger] counts[j].name == Some(x)),
            decreases self.counts.len() - i,
        {
            match &self.counts[i].syscall_name {
                Some(n) => {
                    insert_sorted_unique(&mut names, n.clone());
                    assert(counts[i as int].name == Some(n@));
                },
                None => {
                    assert(counts[i as int].name is None);
                },
            }
            i = i + 1;
        }
        proof {
            assert(lists_exactly(strs(names@), name_set(counts)));
            lemma_sorted_of(strs(names@), name_set(counts));
        }
        names
    }
}

} // verus!
