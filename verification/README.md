# sandprint

Observe a process via eBPF and render a tight seccomp allowlist from the
syscalls it actually invokes.

- `src/` is the verified library: the canonical trace model
  (`profile::trace`), its emitters (OCI seccomp JSON, a systemd
  `SystemCallFilter=` line, a libseccomp C header, a Markdown report, the
  trace JSON), the diff and merge of traces, the decoding of ring buffer
  events and BPF map contents, and the decisions of the tracing loops.
  Every function carries a contract that Verus proves.
- `app/` is the `sandprint` command: argument parsing, reading and
  writing files, loading the BPF object and polling its ring buffer.
- `tests/` runs the library on concrete traces.
