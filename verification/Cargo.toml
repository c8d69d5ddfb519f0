[package]
name = "jarvish"
version = "0.1.0"
edition = "2021"
publish = false

[dependencies]
chrono = "=0.4.45"
git2 = { version = "=0.21.0", default-features = false }
indicatif = "=0.18.6"
libc = "=0.2.191"
nix = { version = "=0.31.3", features = ["fs", "ioctl", "poll", "process", "signal", "term"] }
nu-ansi-term = "=0.50.3"
rand = "=0.10.3"
reedline = "=0.52.1"
termimad = "=0.35.5"
tracing = "0.1"
which = "=8.0.6"
