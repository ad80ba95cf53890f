[package]
name = "sandprint"
version = "0.1.0"
edition = "2021"
publish = false

[dependencies]
anyhow = "1"
clap = { version = "4", features = ["derive"] }
ctrlc = "3"
libbpf-rs = "0.24"
libc = "0.2"
nix = { version = "0.29", features = ["fs", "signal", "process"] }
serde = { version = "1", features = ["derive"] }
serde_json = "1"
syscalls = "0.6"
thiserror = "1"
tracing = "0.1"
tracing-subscriber = { version = "0.3", features = ["env-filter"] }
