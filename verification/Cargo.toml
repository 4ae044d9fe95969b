[package]
name = "hermes_replication"
version = "0.1.0"
edition = "2021"
publish = false

[dependencies]
uuid = { version = "1", features = ["v4", "serde"] }
serde = { version = "1", features = ["derive"] }
rkyv = "0.7"
tokio = { version = "1", features = ["rt-multi-thread", "net", "io-util", "sync", "time"] }
