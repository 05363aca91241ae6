[package]
name = "petrel"
version = "0.1.0"
edition = "2021"
publish = false

[dependencies]
blake3 = "1"
hickory-resolver = "*"
rusqlite = { version = "*", features = ["bundled", "functions"] }
serde = { version = "1", features = ["derive"] }
serde_json = "1"
thiserror = "2"
tokio = { version = "1", features = ["rt-multi-thread", "time"] }
ureq = "3"
zstd = "0.13"
