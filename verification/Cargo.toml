[package]
name = "no-sql-store"
version = "0.1.0"
edition = "2021"
publish = false

[dependencies]
blake3 = { version = "1", features = ["pure"] }
crossbeam-skiplist = "0.1"
dashmap = "6"
anyhow = "1"
futures = "0.3"
thiserror = "2"
tokio = { version = "1", features = ["macros", "rt-multi-thread", "signal", "sync", "time"] }
tokio-stream = "0.1"
tokio-util = "0.7"
tonic = { version = "0.14", features = ["channel", "transport"] }
tracing = "0.1"
uuid = { version = "1", features = ["v7"] }
