//! Userspace side of the BPF tracer: its configuration, the handle that
//! owns the loaded skeleton, and the reading of its counter map.
//!
//! - [`ringbuf`] defines the wire layout of ring buffer events.
//! - [`pidtree`] turns the tracked-PID map's keys into a PID list.
//! - [`output`] builds the canonical trace and the summary table.
//! - [`run`] holds the decisions of the tracing loops.

pub mod output;
pub mod pidtree;
pub mod ringbuf;
pub mod run;

use std::time::Duration;

use vstd::prelude::*;

pub use ringbuf::SyscallEvent;
use ringbuf::{host_order_value, lemma_value_zero, u64_from_ne_bytes};

verus! {

/// Number of entries of the per-syscall counter map.
pub const MAX_SYSCALL_NR: u32 = 512;

/// The duration of `ms` milliseconds, as `Duration::from_millis` makes it.
pub uninterp spec fn millis(ms: u64) -> Duration;

/// Trusted: `Duration::from_millis`. Its result is named by `millis`.
#[verifier::external_body]
fn duration_from_millis(ms: u64) -> (d: Duration)
    ensures
        d == millis(ms),
{
    Duration::from_millis(ms)
}

/// Trusted: `Clone` for `Duration`, which is `Copy`: the clone is the
/// same value.
pub assume_specification[ <Duration as Clone>::clone ](d: &Duration) -> (r: Duration)
    ensures
        r == *d,
;

/// Configuration knobs for [`Tracer`].
#[derive(Debug, Clone)]
pub struct TracerConfig {
    /// If true (the default), descendants of the tracked PIDs are also
    /// traced. Implemented in BPF via `sched_process_fork`.
    pub include_children: bool,
    /// How long the run loop blocks on a single ring buffer poll between
    /// child status checks. Lower values reduce shutdown latency at the
    /// cost of more `epoll_wait` syscalls in the parent.
    pub poll_interval: Duration,
}

impl Default for TracerConfig {
    fn default() -> (c: Self)
        ensures
            c.include_children,
            c.poll_interval == millis(100),
    {
        TracerConfig { include_children: true, poll_interval: duration_from_millis(100) }
    }
}

/// Loaded and attached BPF tracer: the skeleton handle `S` and the
/// configuration it runs with.
pub struct Tracer<S> {
    skel: S,
    config: TracerConfig,
}

impl<S> Tracer<S> {
    /// The configuration this tracer runs with.
    pub closed spec fn config_of(&self) -> TracerConfig {
        self.config
    }

    /// The skeleton this tracer owns.
    pub closed spec fn skel_of(&self) -> S {
        self.skel
    }

    /// Wraps a loaded and attached skeleton.
    pub fn new(skel: S, config: TracerConfig) -> (t: Self)
        ensures
            t.skel_of() == skel,
            t.config_of() == config,
    {
        Tracer { skel, config }
    }

    pub fn config(&self) -> (c: &TracerConfig)
        ensures
            *c == self.config_of(),
    {
        &self.config
    }

    pub fn skel(&self) -> (s: &S)
        ensures
            *s == self.skel_of(),
    {
        &self.skel
    }
}

/// The bytes of a map lookup, if the key was present.
pub open spec fn lookup_bytes(v: Option<Vec<u8>>) -> Option<Seq<u8>> {
    match v {
        Some(b) => Some(b@),
        None => None,
    }
}

/// A lookup that holds a nonzero count: eight bytes, not all zero.
/// Anything else reads as a count of zero.
pub open spec fn nonzero_count(v: Option<Seq<u8>>) -> bool {
    match v {
        Some(b) => b.len() == 8 && exists|i: int| 0 <= i < 8 && b[i] != 0,
        None => false,
    }
}

/// Ordered by descending count; equal counts by ascending syscall number.
pub open spec fn by_count_desc(out: Seq<(u32, u64)>) -> bool {
    forall|i: int, j: int| 0 <= i < j < out.len() ==>
        (#[trigger] out[i]).1 > (#[trigger] out[j]).1 || (out[i].1 == out[j].1 && out[i].0 < out[j].0)
}

/// The per-syscall counts from the counter map's lookups, `values[nr]`
/// being the lookup of syscall `nr`: `(syscall_nr, count)` pairs sorted
/// by descending count, omitting syscalls with count zero.
pub fn syscall_counts(values: &Vec<Option<Vec<u8>>>) -> (out: Vec<(u32, u64)>)
    requires
        values.len() <= u32::MAX,
    ensures
        by_count_desc(out@),
        forall|i: int| 0 <= i < out@.len() ==> {
            let nr = (#[trigger] out@[i]).0 as int;
            &&& 0 <= nr < values.len()
            &&& nonzero_count(lookup_bytes(values@[nr]))
            &&& host_order_value(lookup_bytes(values@[nr])->0, out@[i].1 as int)
        },
        forall|nr: int| 0 <= nr < values.len() && nonzero_count(lookup_bytes(#[trigger] values@[nr]))
            ==> exists|i: int| 0 <= i < out@.len() && (#[trigger] out@[i]).0 == nr,
        forall|i: int, j: int| 0 <= i < j < out@.len() ==> (#[trigger] out@[i]).0 != (#[trigger] out@[j]).0,
{
    let mut out: Vec<(u32, u64)> = Vec::new();
    let mut nr: usize = 0;
    while nr < values.len()
        invariant
            nr <= values.len() <= u32::MAX,
            by_count_desc(out@),
            forall|i: int| 0 <= i < out@.len() ==> {
                let n = (#[trigger] out@[i]).0 as int;
                &&& 0 <= n < nr
                &&& nonzero_count(lookup_bytes(values@[n]))
                &&& host_order_value(lookup_bytes(values@[n])->0, out@[i].1 as int)
            },
            forall|n: int| 0 <= n < nr && nonzero_count(lookup_bytes(#[trigger] values@[n]))
                ==> exists|i: int| 0 <= i < out@.len() && (#[trigger] out@[i]).0 == n,
            forall|i: int, j: int| 0 <= i < j < out@.len() ==> (#[trigger] out@[i]).0 != (#[trigger] out@[j]).0,
        decreases values.len() - nr,
    {
        match &values[nr] {
            Some(v) => {
                if v.len() == 8 {
                    let b: [u8; 8] = [v[0], v[1], v[2], v[3], v[4], v[5], v[6], v[7]];
                    assert(b@ =~= v@);
                    let count = u64_from_ne_bytes(b);
                    proof {
                        lemma_value_zero(v@);
                    }
                    if count > 0 {
                        assert(exists|i: int| 0 <= i < 8 && v@[i] != 0);
                        let ghost before = out@;
                        let mut p: usize = 0;
                        while p < out.len() && out[p].1 >= count
                            invariant
                                p <= out.len(),
                                before == out@,
                                forall|a: int| 0 <= a < p ==> (#[trigger] out@[a]).1 >= count,
                            decreases out.len() - p,
                        {
                            p = p + 1;
                        }
                        out.insert(p, (nr as u32, count));
                        proof {
                            assert(out@ == before.insert(p as int, (nr as u32, count)));
                            assert forall|a: int, c: int| 0 <= a < c < out@.len() implies
                                (#[trigger] out@[a]).1 > (#[trigger] out@[c]).1 || (out@[a].1 == out@[c].1 && out@[a].0 < out@[c].0) by {
                                if a < p && c > p {
                                    assert(out@[a] == before[a]);
                                    assert(out@[c] == before[c - 1]);
                                } else if a < p && c == p {
                                    assert(out@[a] == before[a]);
                                } else if a == p && c > p {
                                    assert(out@[c] == before[c - 1]);
                                    assert(before[p as int].1 < count);
                                    if c - 1 > p {
                                        assert(before[p as int].1 >= before[c - 1].1);
                                    }
                                } else if a > p {
                                    assert(out@[a] == before[a - 1]);
                                    assert(out@[c] == before[c - 1]);
                                }
                            }
                            assert forall|i: int| 0 <= i < out@.len() implies {
                                let n = (#[trigger] out@[i]).0 as int;
                                &&& 0 <= n < nr + 1
                                &&& nonzero_count(lookup_bytes(values@[n]))
                                &&& host_order_value(lookup_bytes(values@[n])->0, out@[i].1 as int)
                            } by {
                                if i < p {
                                    assert(out@[i] == before[i]);
                                } else if i > p {
                                    assert(out@[i] == before[i - 1]);
                                } else {
                                    assert(lookup_bytes(values@[nr as int]) == Some(v@));
                                    assert(nonzero_count(Some(v@)));
                                }
                            }
                            assert forall|n: int| 0 <= n < nr + 1 && nonzero_count(lookup_bytes(#[trigger] values@[n]))
                                implies exists|i: int| 0 <= i < out@.len() && (#[trigger] out@[i]).0 == n by {
                                if n < nr {
                                    let i = choose|i: int| 0 <= i < before.len() && (#[trigger] before[i]).0 == n;
                                    if i < p {
                                        assert(out@[i] == before[i]);
                                    } else {
                                        assert(out@[i + 1] == before[i]);
                                    }
                                } else {
                                    assert(out@[p as int].0 == n);
                                }
                            }
                            assert forall|a: int, c: int| 0 <= a < c < out@.len() implies
                                (#[trigger] out@[a]).0 != (#[trigger] out@[c]).0 by {
                                if a < p && c < p {
                                    assert(out@[a] == before[a] && out@[c] == before[c]);
                                } else if a < p && c > p {
                                    assert(out@[a] == before[a] && out@[c] == before[c - 1]);
                                } else if a > p {
                                    assert(out@[a] == before[a - 1] && out@[c] == before[c - 1]);
                                } else if a == p {
                                    assert(out@[c] == before[c - 1]);
                                    assert(before[c - 1].0 < nr);
                                } else {
                                    assert(out@[a] == before[a]);
                                    assert(before[a].0 < nr);
                                }
                            }
                        }
                    }
                }
            },
            None => {},
        }
        nr = nr + 1;
    }
    out
}

} // verus!
