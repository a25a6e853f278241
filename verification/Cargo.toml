[package]
name = "agent"
version = "0.1.0"
edition = "2021"
publish = false

[dependencies]
anyhow = "*"
bincode = "1"
futures = "*"
libp2p = { version = "*", default-features = false }
quinn = "*"
rcgen = "*"
rustls = { version = "*", features = ["ring"] }
serde = "*"
serde_bytes = "*"
tokio = { version = "*", features = ["rt-multi-thread", "net", "time", "sync", "macros"] }
tracing = "*"
