//! Wire layout of ring buffer events.
//!
//! The fields here must stay in lock-step with `struct syscall_event`
//! in the BPF program: a `u64` timestamp, three `u32`s, four bytes of
//! padding and a 16-byte `comm`, 40 bytes in all, in the host's byte
//! order.

use vstd::prelude::*;
use vstd::utf8::{decode_utf8, valid_utf8};

verus! {

/// Length of the `comm` field.
pub const COMM_LEN: usize = 16;

/// Size of one event on the wire.
pub const EVENT_SIZE: usize = 40;

/// One syscall entry observed by the BPF program.
#[derive(Debug, Clone, Copy)]
pub struct SyscallEvent {
    /// Kernel monotonic timestamp in nanoseconds (`bpf_ktime_get_ns`).
    pub timestamp_ns: u64,
    /// Userspace PID (kernel `tgid`) of the calling task.
    pub tgid: u32,
    /// Userspace TID (kernel `pid`) of the calling task.
    pub tid: u32,
    /// Syscall number on the host architecture.
    pub syscall_nr: u32,
    /// Four bytes of padding after `syscall_nr`; they carry no data.
    pub _pad: u32,
    /// Truncated `comm` of the calling task (NUL-padded).
    pub comm: [u8; COMM_LEN],
}

/// `b` read as an unsigned integer, least significant byte first.
pub open spec fn le_value(b: Seq<u8>) -> int
    decreases b.len(),
{
    if b.len() == 0 {
        0
    } else {
        b[0] + 256 * le_value(b.drop_first())
    }
}

/// `b` read as an unsigned integer, most significant byte first.
pub open spec fn be_value(b: Seq<u8>) -> int
    decreases b.len(),
{
    if b.len() == 0 {
        0
    } else {
        be_value(b.drop_last()) * 256 + b.last()
    }
}

/// `v` is what `b` reads as in one of the two byte orders; which one is
/// the host's.
pub open spec fn host_order_value(b: Seq<u8>, v: int) -> bool {
    v == le_value(b) || v == be_value(b)
}

/// Trusted: `u32::from_ne_bytes`, which std documents as creating the
/// integer from its memory representation in native byte order. Which
/// order that is depends on the machine, so the contract says only that
/// it is one of the two.
#[verifier::external_body]
pub(crate) fn u32_from_ne_bytes(b: [u8; 4]) -> (r: u32)
    ensures
        host_order_value(b@, r as int),
{
    u32::from_ne_bytes(b)
}

/// Trusted: `u64::from_ne_bytes`, as `u32_from_ne_bytes` for 8 bytes.
#[verifier::external_body]
pub(crate) fn u64_from_ne_bytes(b: [u8; 8]) -> (r: u64)
    ensures
        host_order_value(b@, r as int),
{
    u64::from_ne_bytes(b)
}

/// A byte string reads as zero, in either byte order, exactly when all
/// its bytes are zero.
pub proof fn lemma_value_zero(b: Seq<u8>)
    ensures
        (le_value(b) == 0) <==> (forall|i: int| 0 <= i < b.len() ==> b[i] == 0),
        (be_value(b) == 0) <==> (forall|i: int| 0 <= i < b.len() ==> b[i] == 0),
        le_value(b) >= 0,
        be_value(b) >= 0,
    decreases b.len(),
{
    if b.len() > 0 {
        lemma_value_zero(b.drop_first());
        lemma_value_zero(b.drop_last());
        assert forall|i: int| 0 <= i < b.len() - 1 implies b.drop_first()[i] == b[i + 1] by {}
        assert forall|i: int| 0 <= i < b.len() - 1 implies b.drop_last()[i] == b[i] by {}
        if forall|i: int| 0 <= i < b.drop_first().len() ==> b.drop_first()[i] == 0 {
            if b[0] == 0 {
                assert forall|i: int| 0 <= i < b.len() implies b[i] == 0 by {
                    if i > 0 {
                        assert(b.drop_first()[i - 1] == b[i]);
                    }
                }
            }
        }
        if forall|i: int| 0 <= i < b.drop_last().len() ==> b.drop_last()[i] == 0 {
            if b.last() == 0 {
                assert forall|i: int| 0 <= i < b.len() implies b[i] == 0 by {
                    if i < b.len() - 1 {
                        assert(b.drop_last()[i] == b[i]);
                    }
                }
            }
        }
    }
}

/// What `String::from_utf8_lossy` makes of some bytes.
pub uninterp spec fn lossy_utf8(bytes: Seq<u8>) -> Seq<char>;

/// Trusted: `String::from_utf8_lossy` followed by `Cow::into_owned`. Its
/// result is named by `lossy_utf8`; std documents that valid UTF-8 comes
/// out decoded unchanged (invalid sequences become U+FFFD).
#[verifier::external_body]
fn from_utf8_lossy(bytes: &[u8]) -> (r: String)
    ensures
        r@ == lossy_utf8(bytes@),
        valid_utf8(bytes@) ==> r@ == decode_utf8(bytes@),
{
    String::from_utf8_lossy(bytes).into_owned()
}

/// The number of bytes before the first NUL (all of them if none is).
pub open spec fn text_len(c: Seq<u8>) -> int
    decreases c.len(),
{
    if c.len() == 0 || c[0] == 0 {
        0
    } else {
        1 + text_len(c.drop_first())
    }
}

impl SyscallEvent {
    /// Decode `comm` as a UTF-8 string, lossy where bytes are invalid:
    /// the bytes before the first NUL.
    pub fn comm_str(&self) -> (s: String)
        ensures
            s@ == lossy_utf8(self.comm@.take(text_len(self.comm@))),
            valid_utf8(self.comm@.take(text_len(self.comm@))) ==> s@ == decode_utf8(
                self.comm@.take(text_len(self.comm@)),
            ),
    {
        let ghost c = self.comm@;
        let mut len: usize = 0;
        assert(c.skip(0) =~= c);
        while len < COMM_LEN && self.comm[len] != 0
            invariant
                len <= COMM_LEN,
                c == self.comm@,
                c.len() == COMM_LEN,
                text_len(c) == len + text_len(c.skip(len as int)),
            decreases COMM_LEN - len,
        {
            assert(c.skip(len as int).drop_first() =~= c.skip(len + 1));
            len = len + 1;
        }
        let mut prefix: Vec<u8> = Vec::new();
        let mut i: usize = 0;
        while i < len
            invariant
                i <= len <= COMM_LEN,
                c == self.comm@,
                prefix@ == c.take(i as int),
            decreases len - i,
        {
            prefix.push(self.comm[i]);
            assert(prefix@ =~= c.take(i + 1));
            i = i + 1;
        }
        assert(text_len(c) == len as int);
        from_utf8_lossy(prefix.as_slice())
    }

    /// Reads one event from a ring buffer payload. Payloads shorter than an
    /// event are refused; bytes past the first event are ignored.
    pub fn from_wire(bytes: &[u8]) -> (r: Option<SyscallEvent>)
        ensures
            r is Some <==> bytes@.len() >= EVENT_SIZE,
            r matches Some(e) ==> {
                &&& host_order_value(bytes@.subrange(0, 8), e.timestamp_ns as int)
                &&& host_order_value(bytes@.subrange(8, 12), e.tgid as int)
                &&& host_order_value(bytes@.subrange(12, 16), e.tid as int)
                &&& host_order_value(bytes@.subrange(16, 20), e.syscall_nr as int)
                &&& host_order_value(bytes@.subrange(20, 24), e._pad as int)
                &&& e.comm@ == bytes@.subrange(24, 40)
            },
    {
        if bytes.len() < EVENT_SIZE {
            return None;
        }
        let b_ts: [u8; 8] = [bytes[0], bytes[1], bytes[2], bytes[3], bytes[4], bytes[5], bytes[6], bytes[7]];
        let b_tgid: [u8; 4] = [bytes[8], bytes[9], bytes[10], bytes[11]];
        let b_tid: [u8; 4] = [bytes[12], bytes[13], bytes[14], bytes[15]];
        let b_nr: [u8; 4] = [bytes[16], bytes[17], bytes[18], bytes[19]];
        let b_pad: [u8; 4] = [bytes[20], bytes[21], bytes[22], bytes[23]];
        assert(b_ts@ =~= bytes@.subrange(0, 8));
        assert(b_tgid@ =~= bytes@.subrange(8, 12));
        assert(b_tid@ =~= bytes@.subrange(12, 16));
        assert(b_nr@ =~= bytes@.subrange(16, 20));
        assert(b_pad@ =~= bytes@.subrange(20, 24));
        let ts = u64_from_ne_bytes(b_ts);
        let tgid = u32_from_ne_bytes(b_tgid);
        let tid = u32_from_ne_bytes(b_tid);
        let nr = u32_from_ne_bytes(b_nr);
        let pad = u32_from_ne_bytes(b_pad);
        let comm: [u8; COMM_LEN] = [
            bytes[24], bytes[25], bytes[26], bytes[27], bytes[28], bytes[29], bytes[30], bytes[31],
            bytes[32], bytes[33], bytes[34], bytes[35], bytes[36], bytes[37], bytes[38], bytes[39],
        ];
        assert(comm@ =~= bytes@.subrange(24, 40));
        Some(SyscallEvent { timestamp_ns: ts, tgid, tid, syscall_nr: nr, _pad: pad, comm })
    }
}

} // verus!
