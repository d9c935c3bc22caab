[package]
name = "spm"
version = "0.3.5"
edition = "2021"
publish = false

[dependencies]
blake3 = "=1.8.7"
sha2 = "=0.11.1"
flate2 = "=1.1.10"
zstd = "=0.14.3"
xz2 = "=0.1.7"
tar = "=0.4.46"
serde = { version = "=1.0.229", features = ["derive"] }
serde_json = "=1.0.154"
pubgrub = "=0.3.0"
walkdir = "=2.5.0"
tempfile = "=3.27.0"
libc = "=0.2.191"
nix = { version = "=0.31.3", features = ["sched", "mount", "fs"] }
caps = "=0.5.6"
chrono = "=0.4.45"
tracing = "=0.1.44"
goblin = "*"
rayon = "*"
ureq = "3"
