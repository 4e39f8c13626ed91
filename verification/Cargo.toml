[package]
name = "pocker"
version = "0.1.0"
edition = "2021"
publish = false

[dependencies]
backtrace = "0.3"
futures-lite = "2"
libc = "0.2"
nix = { version = "0.30", features = ["feature", "fs", "mman", "process", "ptrace", "signal"] }
thiserror = "2"
tracing = "0.1"
