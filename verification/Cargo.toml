[package]
name = "sbc_core"
version = "0.1.0"
edition = "2021"
publish = false

[dependencies]
dashmap = "6"
ipnetwork = "0.20"
rand = "0.8"
rsip = "0.4"
serde = { version = "1", features = ["derive"] }
serde_json = "1"
tokio = { version = "1", features = ["sync", "time", "rt", "macros", "net"] }
tracing = "0.1"
uuid = { version = "1", features = ["v4"] }
