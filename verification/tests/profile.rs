use sandprint::profile::trace::{Trace, TraceCount, TraceEvent};
use sandprint::profile::{diff, emit, markdown, merge, oci, seccomp_h, systemd, Format, ProfileError};

fn fake_trace(arch: &str, names: &[(u32, &str, u64)]) -> Trace {
    Trace {
        schema_version: 1,
        arch: arch.to_string(),
        target_argv: vec!["fake".into()],
        events: vec![],
        counts: names
            .iter()
            .map(|(nr, n, c)| TraceCount {
                syscall_nr: *nr,
                syscall_name: Some((*n).to_string()),
                count: *c,
            })
            .collect(),
    }
}

fn trace_a() -> Trace {
    Trace {
        schema_version: 1,
        arch: "x86_64".to_string(),
        target_argv: vec!["a".to_string()],
        events: vec![],
        counts: vec![
            TraceCount { syscall_nr: 0, syscall_name: Some("read".to_string()), count: 5 },
            TraceCount { syscall_nr: 1, syscall_name: Some("write".to_string()), count: 3 },
        ],
    }
}

fn trace_b() -> Trace {
    Trace {
        schema_version: 1,
        arch: "x86_64".to_string(),
        target_argv: vec!["b".to_string()],
        events: vec![],
        counts: vec![
            TraceCount { syscall_nr: 1, syscall_name: Some("write".to_string()), count: 7 },
            TraceCount { syscall_nr: 257, syscall_name: Some("openat".to_string()), count: 2 },
        ],
    }
}

#[test]
fn unique_names_are_sorted_and_deduped() {
    let t = fake_trace(
        "x86_64",
        &[(0, "read", 5), (1, "write", 3), (3, "close", 1), (0, "read", 7)],
    );
    let names = t.unique_syscall_names();
    assert_eq!(names, vec!["close", "read", "write"]);
}

#[test]
fn systemd_emit_basic() {
    let t = fake_trace("x86_64", &[(0, "read", 1), (1, "write", 1)]);
    assert_eq!(systemd::emit(&t), "SystemCallFilter=read write\n");
}

#[test]
fn oci_arch_token_x86_64() {
    let t = fake_trace("x86_64", &[(0, "read", 1)]);
    let s = oci::emit(&t).unwrap();
    assert!(s.contains("SCMP_ARCH_X86_64"));
    assert!(s.contains("\"read\""));
}

#[test]
fn oci_unsupported_arch_errors() {
    let t = fake_trace("riscv64", &[(0, "read", 1)]);
    assert!(matches!(oci::emit(&t), Err(ProfileError::UnsupportedArch(_))));
}

#[test]
fn diff_distinguishes_sets() {
    let a = fake_trace("x86_64", &[(0, "read", 1), (1, "write", 1)]);
    let b = fake_trace("x86_64", &[(1, "write", 1), (3, "close", 1)]);
    let d = diff::diff(&a, &b);
    assert_eq!(d.only_a, vec!["read"]);
    assert_eq!(d.only_b, vec!["close"]);
    assert_eq!(d.common, vec!["write"]);
}

#[test]
fn mod_merge_sums_counts() {
    let a = fake_trace("x86_64", &[(0, "read", 5), (1, "write", 3)]);
    let b = fake_trace("x86_64", &[(0, "read", 7)]);
    let m = merge::merge(&[a, b]).unwrap();
    let read = m.counts.iter().find(|c| c.syscall_nr == 0).unwrap();
    assert_eq!(read.count, 12);
}

#[test]
fn merge_rejects_arch_mismatch() {
    let a = fake_trace("x86_64", &[(0, "read", 1)]);
    let b = fake_trace("aarch64", &[(0, "read", 1)]);
    assert!(matches!(merge::merge(&[a, b]), Err(ProfileError::ArchMismatch(_))));
}

#[test]
fn unique_names_skip_unresolved_and_handle_empty() {
    let mut t = fake_trace("x86_64", &[(2, "open", 1)]);
    t.counts.push(TraceCount { syscall_nr: 600, syscall_name: None, count: 4 });
    assert_eq!(t.unique_syscall_names(), vec!["open"]);
    let empty = fake_trace("x86_64", &[]);
    assert!(empty.unique_syscall_names().is_empty());
    assert_eq!(systemd::emit(&empty), "SystemCallFilter=\n");
}

#[test]
fn unique_names_order_is_bytewise() {
    let t = fake_trace("x86_64", &[(0, "b", 1), (1, "a_b", 1), (2, "ab", 1), (3, "B", 1), (4, "a", 1)]);
    let names = t.unique_syscall_names();
    let mut expected: Vec<String> = names.clone();
    expected.sort();
    assert_eq!(names, expected);
    assert_eq!(names, vec!["B", "a", "a_b", "ab", "b"]);
}

#[test]
fn parse_cli_accepts_every_spelling() {
    assert_eq!(Format::parse_cli("json"), Ok(Format::Json));
    assert_eq!(Format::parse_cli("oci"), Ok(Format::Oci));
    assert_eq!(Format::parse_cli("systemd"), Ok(Format::Systemd));
    assert_eq!(Format::parse_cli("seccomp-h"), Ok(Format::SeccompH));
    assert_eq!(Format::parse_cli("seccomp_h"), Ok(Format::SeccompH));
    assert_eq!(Format::parse_cli("markdown"), Ok(Format::Markdown));
    assert_eq!(Format::parse_cli("md"), Ok(Format::Markdown));
}

#[test]
fn unknown_format_errors() {
    assert_eq!(
        Format::parse_cli("bogus"),
        Err("unknown format 'bogus'; expected one of: json, oci, systemd, seccomp-h, markdown".to_string())
    );
    assert!(Format::parse_cli("JSON").is_err());
    assert!(Format::parse_cli("").is_err());
}

#[test]
fn oci_output_is_exact() {
    let s = oci::emit(&trace_a()).unwrap();
    let expected = "{\n  \"defaultAction\": \"SCMP_ACT_ERRNO\",\n  \"defaultErrnoRet\": 1,\n  \"architectures\": [\n    \"SCMP_ARCH_X86_64\"\n  ],\n  \"syscalls\": [\n    {\n      \"names\": [\n        \"read\",\n        \"write\"\n      ],\n      \"action\": \"SCMP_ACT_ALLOW\"\n    }\n  ]\n}";
    assert_eq!(s, expected);
}

#[test]
fn oci_aarch64_and_empty_names() {
    let t = fake_trace("aarch64", &[]);
    let s = oci::emit(&t).unwrap();
    assert!(s.contains("\"SCMP_ARCH_AARCH64\""));
    assert!(s.contains("\"names\": [],"));
}

#[test]
fn oci_unsupported_arch_names_it() {
    match oci::emit(&fake_trace("riscv64", &[])) {
        Err(ProfileError::UnsupportedArch(a)) => assert_eq!(a, "riscv64"),
        other => panic!("unexpected {:?}", other.map(|_| ())),
    }
}

#[test]
fn generate_seccomp_h_format() {
    let s = seccomp_h::emit(&trace_a());
    let expected = "#ifndef SANDPRINT_PROFILE_H\n#define SANDPRINT_PROFILE_H\n\n#include <seccomp.h>\n\nstatic const int sandprint_syscalls[] = {\n    SCMP_SYS(read),\n    SCMP_SYS(write),\n};\n\n#define SANDPRINT_NUM_SYSCALLS 2\n\n#endif /* SANDPRINT_PROFILE_H */\n";
    assert_eq!(s, expected);
    assert!(s.contains("SCMP_SYS(read)"));
    assert!(s.contains("SANDPRINT_PROFILE_H"));
}

#[test]
fn generate_markdown_format() {
    let mut t = trace_a();
    t.target_argv = vec!["curl".to_string(), "-s".to_string()];
    t.counts.push(TraceCount { syscall_nr: 999, syscall_name: None, count: 1 });
    t.events.push(TraceEvent {
        timestamp_ns: 1,
        tgid: 2,
        tid: 3,
        syscall_nr: 0,
        syscall_name: Some("read".to_string()),
        comm: "curl".to_string(),
    });
    let s = markdown::emit(&t);
    let expected = "# sandprint profile\n\n- **Architecture:** x86_64\n- **Command:** `curl -s`\n- **Total events:** 1\n- **Unique syscalls:** 3\n\n| NR | Count | Name |\n|---:|------:|------|\n| 0 | 5 | `read` |\n| 1 | 3 | `write` |\n| 999 | 1 | `?` |\n";
    assert_eq!(s, expected);
    assert!(s.contains("# sandprint profile"));
    assert!(s.contains("| `read` |"));
}

#[test]
fn generate_systemd_format() {
    let s = emit(&trace_a(), Format::Systemd).unwrap();
    assert!(s.starts_with("SystemCallFilter=read write"));
}

#[test]
fn generate_oci_format() {
    let s = emit(&trace_a(), Format::Oci).unwrap();
    assert!(s.contains("SCMP_ARCH_X86_64"));
    assert!(s.contains("SCMP_ACT_ALLOW"));
}

#[test]
fn json_output_is_exact() {
    let mut t = trace_a();
    t.events.push(TraceEvent {
        timestamp_ns: 1234567890,
        tgid: 1234,
        tid: 1235,
        syscall_nr: 257,
        syscall_name: None,
        comm: "cu\"rl\\\n\u{1}".to_string(),
    });
    let s = emit(&t, Format::Json).unwrap();
    let expected = "{\n  \"schema_version\": 1,\n  \"arch\": \"x86_64\",\n  \"target_argv\": [\n    \"a\"\n  ],\n  \"events\": [\n    {\n      \"timestamp_ns\": 1234567890,\n      \"tgid\": 1234,\n      \"tid\": 1235,\n      \"syscall_nr\": 257,\n      \"syscall_name\": null,\n      \"comm\": \"cu\\\"rl\\\\\\n\\u0001\"\n    }\n  ],\n  \"counts\": [\n    {\n      \"syscall_nr\": 0,\n      \"syscall_name\": \"read\",\n      \"count\": 5\n    },\n    {\n      \"syscall_nr\": 1,\n      \"syscall_name\": \"write\",\n      \"count\": 3\n    }\n  ]\n}";
    assert_eq!(s, expected);
}

#[test]
fn json_output_of_empty_trace() {
    let t = Trace { schema_version: 7, arch: "é".to_string(), target_argv: vec![], events: vec![], counts: vec![] };
    let s = emit(&t, Format::Json).unwrap();
    assert_eq!(s, "{\n  \"schema_version\": 7,\n  \"arch\": \"é\",\n  \"target_argv\": [],\n  \"events\": [],\n  \"counts\": []\n}");
}

#[test]
fn diff_distinguishes_traces() {
    let d = diff::diff(&trace_a(), &trace_b());
    let s = d.render("a.json", "b.json");
    assert!(s.contains("+ read"));
    assert!(s.contains("- openat"));
    assert_eq!(
        s,
        "Only in a.json (1 syscalls):\n  + read\n\nOnly in b.json (1 syscalls):\n  - openat\n\nIn both (1 syscalls)\n"
    );
}

#[test]
fn diff_arch_is_independent() {
    let mut b = trace_b();
    b.arch = "aarch64".to_string();
    let d1 = diff::diff(&trace_a(), &b);
    let d2 = diff::diff(&trace_a(), &trace_b());
    assert_eq!(d1.only_a, d2.only_a);
    assert_eq!(d1.only_b, d2.only_b);
    assert_eq!(d1.common, d2.common);
}

#[test]
fn diff_is_symmetric_and_self_diff_is_common() {
    let d1 = diff::diff(&trace_a(), &trace_b());
    let d2 = diff::diff(&trace_b(), &trace_a());
    assert_eq!(d1.only_a, d2.only_b);
    assert_eq!(d1.only_b, d2.only_a);
    assert_eq!(d1.common, d2.common);
    let d3 = diff::diff(&trace_a(), &trace_a());
    assert!(d3.only_a.is_empty() && d3.only_b.is_empty());
    assert_eq!(d3.common, vec!["read", "write"]);
}

#[test]
fn integration_merge_sums_counts() {
    let m = merge::merge(&[trace_a(), trace_b()]).unwrap();
    assert_eq!(m.schema_version, 1);
    assert_eq!(m.arch, "x86_64");
    assert!(m.events.is_empty());
    assert_eq!(m.target_argv, vec!["merge of: [a] + [b]"]);
    let got: Vec<(u32, Option<String>, u64)> =
        m.counts.iter().map(|c| (c.syscall_nr, c.syscall_name.clone(), c.count)).collect();
    assert_eq!(
        got,
        vec![
            (1, Some("write".to_string()), 10),
            (0, Some("read".to_string()), 5),
            (257, Some("openat".to_string()), 2),
        ]
    );
    let json = emit(&m, Format::Json).unwrap();
    assert!(json.contains("\"count\": 10"));
}

#[test]
fn merge_takes_first_known_name_and_drops_events() {
    let mut a = fake_trace("x86_64", &[]);
    a.counts.push(TraceCount { syscall_nr: 9, syscall_name: None, count: 1 });
    a.events.push(TraceEvent {
        timestamp_ns: 0,
        tgid: 1,
        tid: 1,
        syscall_nr: 9,
        syscall_name: None,
        comm: "x".to_string(),
    });
    let b = fake_trace("x86_64", &[(9, "mmap", 2)]);
    let c = fake_trace("x86_64", &[(9, "other", 4)]);
    let m = merge::merge(&[a, b, c]).unwrap();
    assert_eq!(m.counts.len(), 1);
    assert_eq!(m.counts[0].syscall_name.as_deref(), Some("mmap"));
    assert_eq!(m.counts[0].count, 7);
    assert!(m.events.is_empty());
    assert_eq!(m.target_argv, vec!["merge of: [fake] + [fake] + [fake]"]);
}

#[test]
fn merge_of_nothing_is_refused() {
    assert!(matches!(merge::merge(&[]), Err(ProfileError::EmptyMerge)));
}

#[test]
fn merge_mismatch_lists_architectures() {
    let a = fake_trace("x86_64", &[]);
    let b = fake_trace("aarch64", &[]);
    let c = fake_trace("x86_64", &[]);
    let d = fake_trace("riscv64", &[]);
    match merge::merge(&[a, b, c, d]) {
        Err(ProfileError::ArchMismatch(v)) => assert_eq!(v, vec!["x86_64", "aarch64", "riscv64"]),
        other => panic!("unexpected {:?}", other.map(|_| ())),
    }
}

#[test]
fn merge_totals_do_not_depend_on_order() {
    let m1 = merge::merge(&[trace_a(), trace_b()]).unwrap();
    let m2 = merge::merge(&[trace_b(), trace_a()]).unwrap();
    for c in &m1.counts {
        let other = m2.counts.iter().find(|d| d.syscall_nr == c.syscall_nr).unwrap();
        assert_eq!(other.count, c.count);
    }
    assert_eq!(m1.counts.len(), m2.counts.len());
}
