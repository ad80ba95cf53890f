//! Snapshot helpers for the BPF-maintained tracked-PID set.
//!
//! The kernel side maintains the actual tree via `sched_process_fork`
//! and `sched_process_exit` tracepoints. This module turns the keys of
//! that map, as read from userspace, into a PID list.

use vstd::prelude::*;

use super::ringbuf::{host_order_value, u32_from_ne_bytes};

verus! {

broadcast use vstd::multiset::group_multiset_axioms;

/// The byte strings of some map keys.
pub open spec fn key_bytes(keys: Seq<Vec<u8>>) -> Seq<Seq<u8>> {
    keys.map_values(|k: Vec<u8>| k@)
}

/// The keys that are exactly four bytes long, in order; other keys are
/// not PIDs and are skipped.
pub open spec fn pid_keys(keys: Seq<Seq<u8>>) -> Seq<Seq<u8>>
    decreases keys.len(),
{
    if keys.len() == 0 {
        Seq::empty()
    } else if keys.last().len() == 4 {
        pid_keys(keys.drop_last()).push(keys.last())
    } else {
        pid_keys(keys.drop_last())
    }
}

/// `pids` holds one PID per key, read in the host's byte order.
pub open spec fn decodes(keys: Seq<Seq<u8>>, pids: Seq<u32>) -> bool {
    &&& pids.len() == keys.len()
    &&& forall|j: int| 0 <= j < keys.len() ==> host_order_value(#[trigger] keys[j], pids[j] as int)
}

/// Ascending, possibly with repeats.
pub open spec fn ascending(s: Seq<u32>) -> bool {
    forall|i: int, j: int| 0 <= i < j < s.len() ==> #[trigger] s[i] <= #[trigger] s[j]
}

/// Inserting keeps the multiset of a sequence up to one more copy.
pub proof fn lemma_insert_multiset(s: Seq<u32>, i: int, x: u32)
    requires
        0 <= i <= s.len(),
    ensures
        s.insert(i, x).to_multiset() =~= s.to_multiset().insert(x),
{
    let t = s.insert(i, x);
    assert(t.remove(i) =~= s);
    t.to_multiset_ensures();
    assert(t.contains(x)) by {
        assert(t[i] == x);
    }
    assert(t.to_multiset().count(x) > 0);
}

fn decode_keys(keys: &Vec<Vec<u8>>) -> (pids: Vec<u32>)
    ensures
        decodes(pid_keys(key_bytes(keys@)), pids@),
{
    let ghost kb = key_bytes(keys@);
    let mut pids: Vec<u32> = Vec::new();
    let mut i: usize = 0;
    while i < keys.len()
        invariant
            i <= keys.len(),
            kb == key_bytes(keys@),
            decodes(pid_keys(kb.take(i as int)), pids@),
        decreases keys.len() - i,
    {
        let k = &keys[i];
        assert(kb.take(i + 1).drop_last() =~= kb.take(i as int));
        assert(kb.take(i + 1).last() == k@);
        if k.len() == 4 {
            let b: [u8; 4] = [k[0], k[1], k[2], k[3]];
            assert(b@ =~= k@);
            pids.push(u32_from_ne_bytes(b));
            let ghost pk = pid_keys(kb.take(i + 1));
            assert forall|j: int| 0 <= j < pk.len() implies host_order_value(#[trigger] pk[j], pids@[j] as int) by {
                if j < pk.len() - 1 {
                    assert(pk[j] == pid_keys(kb.take(i as int))[j]);
                }
            }
        }
        i = i + 1;
    }
    assert(kb.take(keys.len() as int) =~= kb);
    pids
}

/// Return the set of currently-tracked PIDs from the tracked-PID map's
/// keys: each four-byte key read in the host's byte order, others
/// skipped, ascending. The snapshot is racy with respect to concurrent
/// fork/exit events, which is acceptable for the human summary;
/// downstream emitters use the per-syscall counter map instead.
pub fn snapshot(keys: &Vec<Vec<u8>>) -> (out: Vec<u32>)
    ensures
        ascending(out@),
        exists|d: Seq<u32>| #[trigger] decodes(pid_keys(key_bytes(keys@)), d) && out@.to_multiset() == d.to_multiset(),
{
    let pids = decode_keys(keys);
    let mut out: Vec<u32> = Vec::new();
    let mut i: usize = 0;
    assert(out@ =~= pids@.take(0));
    while i < pids.len()
        invariant
            i <= pids.len(),
            ascending(out@),
            out@.to_multiset() == pids@.take(i as int).to_multiset(),
        decreases pids.len() - i,
    {
        let x = pids[i];
        let mut p: usize = 0;
        while p < out.len() && out[p] <= x
            invariant
                p <= out.len(),
                forall|a: int| 0 <= a < p ==> out@[a] <= x,
            decreases out.len() - p,
        {
            p = p + 1;
        }
        let ghost before = out@;
        proof {
            lemma_insert_multiset(before, p as int, x);
            pids@.take(i as int).to_multiset_ensures();
            assert(pids@.take(i + 1) =~= pids@.take(i as int).push(x));
        }
        out.insert(p, x);
        assert(out@ == before.insert(p as int, x));
        assert forall|a: int, b: int| 0 <= a < b < out@.len() implies #[trigger] out@[a] <= #[trigger] out@[b] by {
            if a < p && b > p {
                assert(before[a] <= before[b - 1]);
            } else if a == p && b > p {
                assert(before[p as int] > x);
                assert(before[p as int] <= before[b - 1]);
            } else if a > p {
                assert(before[a - 1] <= before[b - 1]);
            }
        }
        i = i + 1;
    }
    assert(pids@.take(pids.len() as int) =~= pids@);
    out
}

} // verus!
