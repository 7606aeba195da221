[package]
name = "neuradix"
version = "0.1.0"
edition = "2021"
publish = false

[dependencies]
sha2 = "=0.10.9"
crc32fast = "=1.5.4"
lz4 = "=1.28.1"
serde = { version = "=1.0.229", features = ["derive"] }
serde_json = "=1.0.154"
serde_yaml = "=0.9.34"
nix = { version = "=0.29.0", features = ["feature", "fs", "process", "resource", "signal"] }
mcap = { version = "=0.26.0", default-features = false }
