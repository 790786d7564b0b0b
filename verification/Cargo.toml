[package]
name = "aperf"
version = "0.1.0"
edition = "2021"
publish = false

[dependencies]
regex = "=1.13.1"
anyhow = "=1.0.104"
log = "=0.4.35"
serde = { version = "=1.0.229", features = ["derive"] }
serde_json = "=1.0.154"
chrono = { version = "=0.4.45", default-features = false, features = ["clock", "std"] }
numeric-sort = "=0.1.5"
itoa = "=1.0.18"
ryu = "=1.0.23"
libc = "=0.2.191"
rlimit = "=0.10.2"
thiserror = "=1.0.69"
tempfile = "=3.27.0"
procfs = "=0.18.0"
bincode = "=1.3.3"
indexmap = "=2.14.2"
inferno = { version = "*", default-features = false }
