[package]
name = "dfs_server"
version = "0.1.0"
edition = "2021"
publish = false

[dependencies]
anyhow = "1"
bincode = "1.3"
blake3 = { version = "1", default-features = false, features = ["pure", "std"] }
dashmap = "6"
libc = "0.2"
lru = "0.12"
nix = { version = "0.29", features = ["fs"] }
serde = { version = "1", features = ["derive"] }
tokio = { version = "1", features = ["rt", "rt-multi-thread", "sync", "time", "macros"] }
tracing = "0.1"
uuid = { version = "1", features = ["v4"] }
