use sandprint::profile::trace::{Trace, TraceCount, TraceEvent};
use sandprint::profile::{emit, oci, Format};
use serde_json::Value;

fn sample() -> Trace {
    Trace {
        schema_version: 1,
        arch: "x86_64".to_string(),
        target_argv: vec!["sh".to_string(), "-c".to_string(), "echo \"hi\"\t\u{7f}\u{1f}é".to_string()],
        events: vec![TraceEvent {
            timestamp_ns: u64::MAX,
            tgid: 7,
            tid: 8,
            syscall_nr: 1,
            syscall_name: Some("write".to_string()),
            comm: "a\\b\u{8}\u{c}\r".to_string(),
        }],
        counts: vec![
            TraceCount { syscall_nr: 1, syscall_name: Some("write".to_string()), count: 3 },
            TraceCount { syscall_nr: 4000, syscall_name: None, count: 1 },
        ],
    }
}

#[test]
fn trace_json_parses_back_to_the_same_values() {
    let t = sample();
    let text = emit(&t, Format::Json).unwrap();
    let v: Value = serde_json::from_str(&text).unwrap();
    assert_eq!(v["schema_version"], Value::from(1u32));
    assert_eq!(v["arch"], Value::from("x86_64"));
    assert_eq!(v["target_argv"][2], Value::from("echo \"hi\"\t\u{7f}\u{1f}é"));
    assert_eq!(v["events"][0]["timestamp_ns"], Value::from(u64::MAX));
    assert_eq!(v["events"][0]["comm"], Value::from("a\\b\u{8}\u{c}\r"));
    assert_eq!(v["counts"][1]["syscall_name"], Value::Null);
    assert_eq!(v["counts"][1]["syscall_nr"], Value::from(4000u32));
    // Re-serializing the parsed value pretty-prints it the same way, key
    // order aside: the text has the same lines once sorted, separators
    // dropped.
    let again = serde_json::to_string_pretty(&v).unwrap();
    let mut a: Vec<&str> = text.lines().map(|l| l.trim_end_matches(',')).collect();
    let mut b: Vec<&str> = again.lines().map(|l| l.trim_end_matches(',')).collect();
    a.sort();
    b.sort();
    assert_eq!(a, b);
}

#[test]
fn control_characters_are_escaped_as_serde_json_does() {
    let mut t = sample();
    t.events.clear();
    t.counts.clear();
    t.target_argv = vec!["\u{0}\u{1b}\"\\\n/".to_string()];
    let text = emit(&t, Format::Json).unwrap();
    let expected = serde_json::to_string(&Value::from("\u{0}\u{1b}\"\\\n/")).unwrap();
    assert!(text.contains(&format!("    {}\n", expected)));
}

#[test]
fn oci_json_parses() {
    let text = oci::emit(&sample()).unwrap();
    let v: Value = serde_json::from_str(&text).unwrap();
    assert_eq!(v["defaultAction"], Value::from("SCMP_ACT_ERRNO"));
    assert_eq!(v["defaultErrnoRet"], Value::from(1));
    assert_eq!(v["architectures"][0], Value::from("SCMP_ARCH_X86_64"));
    assert_eq!(v["syscalls"][0]["names"][0], Value::from("write"));
    assert_eq!(v["syscalls"][0]["action"], Value::from("SCMP_ACT_ALLOW"));
}
