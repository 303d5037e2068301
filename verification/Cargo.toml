[package]
name = "lsl"
version = "0.1.0"
edition = "2021"
publish = false

[dependencies]
clap = { version = "4", features = ["derive"] }
colored = "2"
libc = "0.2"
nix = { version = "0.27", features = ["fs", "hostname", "mount", "process", "sched", "signal", "user"] }
serde = { version = "1", features = ["derive"] }
serde_json = "1"
