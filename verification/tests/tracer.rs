use sandprint::syscall_names::{name, name_of};
use sandprint::tracer::output::{build_trace, render_summary, summary};
use sandprint::tracer::pidtree::snapshot;
use sandprint::tracer::ringbuf::{SyscallEvent, EVENT_SIZE};
use sandprint::tracer::run::{attach_poll_timeout, RunLoop};
use sandprint::tracer::{syscall_counts, Tracer, TracerConfig};
use sandprint::text::decimal_string;

fn wire_event(ts: u64, tgid: u32, tid: u32, nr: u32, comm: &[u8]) -> Vec<u8> {
    let mut b = Vec::new();
    b.extend_from_slice(&ts.to_ne_bytes());
    b.extend_from_slice(&tgid.to_ne_bytes());
    b.extend_from_slice(&tid.to_ne_bytes());
    b.extend_from_slice(&nr.to_ne_bytes());
    b.extend_from_slice(&0u32.to_ne_bytes());
    let mut c = [0u8; 16];
    c[..comm.len()].copy_from_slice(comm);
    b.extend_from_slice(&c);
    b
}

/// Whether the syscall table built in is the x86_64 one: the names
/// asserted below are that table's.
fn x86_64_table() -> bool {
    syscalls::Sysno::read.id() == 0 && syscalls::Sysno::write.id() == 1
}

#[test]
fn x86_64_zero_is_read() {
    if x86_64_table() {
        assert_eq!(name(0), Some("read"));
    }
}

#[test]
fn unknown_syscall_numbers_have_no_name() {
    assert_eq!(name(100_000), None);
    if x86_64_table() {
        assert_eq!(name(1), Some("write"));
    }
}

#[test]
fn table_entries_resolve_to_their_names() {
    assert_eq!(name_of(Some(syscalls::Sysno::read)), Some("read"));
    assert_eq!(name_of(Some(syscalls::Sysno::exit)), Some("exit"));
    assert_eq!(name_of(None), None);
}

#[test]
fn event_padding_is_read_from_its_bytes() {
    let mut bytes = wire_event(1, 2, 3, 4, b"sh");
    bytes[20..24].copy_from_slice(&7u32.to_ne_bytes());
    let e = SyscallEvent::from_wire(&bytes).unwrap();
    assert_eq!(e._pad, 7);
    assert_eq!(e.syscall_nr, 4);
    assert_eq!(e.comm_str(), "sh");
}

#[test]
fn event_decodes_from_wire() {
    let bytes = wire_event(0x0102030405060708, 77, 78, 257, b"curl");
    assert_eq!(bytes.len(), EVENT_SIZE);
    let e = SyscallEvent::from_wire(&bytes).unwrap();
    assert_eq!(e.timestamp_ns, 0x0102030405060708);
    assert_eq!(e.tgid, 77);
    assert_eq!(e.tid, 78);
    assert_eq!(e.syscall_nr, 257);
    assert_eq!(e.comm_str(), "curl");
    assert!(SyscallEvent::from_wire(&bytes[..39]).is_none());
}

#[test]
fn comm_stops_at_first_nul_and_is_lossy() {
    let e = SyscallEvent::from_wire(&wire_event(1, 1, 1, 1, b"ab\0cd")).unwrap();
    assert_eq!(e.comm_str(), "ab");
    let full = SyscallEvent::from_wire(&wire_event(1, 1, 1, 1, b"0123456789abcdef")).unwrap();
    assert_eq!(full.comm_str(), "0123456789abcdef");
    let bad = SyscallEvent::from_wire(&wire_event(1, 1, 1, 1, b"a\xffb")).unwrap();
    assert_eq!(bad.comm_str(), "a\u{fffd}b");
}

#[test]
fn counts_are_sorted_and_zero_is_dropped() {
    let mut values: Vec<Option<Vec<u8>>> = vec![None; 6];
    values[0] = Some(5u64.to_ne_bytes().to_vec());
    values[1] = Some(0u64.to_ne_bytes().to_vec());
    values[2] = Some(9u64.to_ne_bytes().to_vec());
    values[3] = Some(vec![1, 2, 3]);
    values[4] = Some(5u64.to_ne_bytes().to_vec());
    values[5] = Some(300u64.to_ne_bytes().to_vec());
    assert_eq!(syscall_counts(&values), vec![(5, 300), (2, 9), (0, 5), (4, 5)]);
    assert!(syscall_counts(&vec![]).is_empty());
}

#[test]
fn each_syscall_number_is_counted_once() {
    let values: Vec<Option<Vec<u8>>> = vec![Some(vec![1, 0, 0, 0, 0, 0, 0, 0]), None, Some(7u64.to_ne_bytes().to_vec())];
    let out = syscall_counts(&values);
    assert_eq!(out.len(), 2);
    assert_eq!(out.iter().filter(|p| p.0 == 0).count(), 1);
    assert_eq!(out.iter().filter(|p| p.0 == 2).count(), 1);
    assert!(out.contains(&(2, 7)));
    assert!(out.contains(&(0, u64::from_ne_bytes([1, 0, 0, 0, 0, 0, 0, 0]))));
}

#[test]
fn pid_snapshot_is_sorted() {
    let keys = vec![
        42u32.to_ne_bytes().to_vec(),
        vec![1, 2],
        7u32.to_ne_bytes().to_vec(),
        70000u32.to_ne_bytes().to_vec(),
    ];
    assert_eq!(snapshot(&keys), vec![7, 42, 70000]);
}

#[test]
fn build_trace_maps_events_and_counts() {
    let e = SyscallEvent::from_wire(&wire_event(10, 100, 101, 0, b"cat")).unwrap();
    let t = build_trace("x86_64", &["cat".to_string(), "f".to_string()], &[e], &[(0, 3), (100_000, 1)]);
    assert_eq!(t.schema_version, 1);
    assert_eq!(t.arch, "x86_64");
    assert_eq!(t.target_argv, vec!["cat", "f"]);
    assert_eq!(t.events.len(), 1);
    assert_eq!(t.events[0].timestamp_ns, 10);
    assert_eq!(t.events[0].tgid, 100);
    assert_eq!(t.events[0].tid, 101);
    assert_eq!(t.events[0].comm, "cat");
    if x86_64_table() {
        assert_eq!(t.events[0].syscall_name.as_deref(), Some("read"));
    }
    assert_eq!(t.counts.len(), 2);
    assert_eq!(t.counts[0].count, 3);
    if x86_64_table() {
        assert_eq!(t.counts[0].syscall_name.as_deref(), Some("read"));
    }
    assert_eq!(t.counts[1].syscall_nr, 100_000);
    assert_eq!(t.counts[1].syscall_name, None);
}

#[test]
fn summary_table_layout() {
    let s = render_summary(12, &[(257, 10), (0, 2)], &vec![Some("openat"), None]);
    assert_eq!(
        s,
        "Observed 12 syscall events (2 unique syscalls)\n\n   NR       COUNT  NAME\n  257          10  openat\n    0           2  ?\n"
    );
    if x86_64_table() {
        let h = summary(3, &[(1, 1234567890123)]);
        assert_eq!(h, "Observed 3 syscall events (1 unique syscalls)\n\n   NR       COUNT  NAME\n    1  1234567890123  write\n");
    }
}

#[test]
fn run_loop_sends_term_once() {
    let mut r = RunLoop::new();
    assert!(r.keep_polling());
    assert!(!r.on_interrupt_check(false));
    assert!(r.on_interrupt_check(true));
    assert!(!r.on_interrupt_check(true));
    assert!(!r.on_interrupt_check(false));
    r.on_wait(true);
    assert!(r.keep_polling());
    r.on_wait(false);
    assert!(!r.keep_polling());
}

#[test]
fn attach_timeout_caps_at_poll_interval() {
    assert_eq!(attach_poll_timeout(false, 5_000_000_000, 100_000_000), Some(100_000_000));
    assert_eq!(attach_poll_timeout(false, 30_000_000, 100_000_000), Some(30_000_000));
    assert_eq!(attach_poll_timeout(false, 0, 100_000_000), None);
    assert_eq!(attach_poll_timeout(true, 5_000_000_000, 100_000_000), None);
}

#[test]
fn tracer_config_defaults_and_accessors() {
    let c = TracerConfig::default();
    assert!(c.include_children);
    assert_eq!(c.poll_interval, std::time::Duration::from_millis(100));
    let t = Tracer::new("skeleton", c.clone());
    assert_eq!(*t.skel(), "skeleton");
    assert_eq!(t.config().poll_interval, c.poll_interval);
}

#[test]
fn decimal_rendering() {
    assert_eq!(decimal_string(0), "0");
    assert_eq!(decimal_string(10), "10");
    assert_eq!(decimal_string(u64::MAX), "18446744073709551615");
}
