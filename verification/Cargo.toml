[package]
name = "minimint_bridge"
version = "0.1.0"
edition = "2021"
publish = false

[dependencies]
bitcoin = "*"
bitcoin_hashes = "*"
sled = "*"
tokio = { version = "*", features = ["rt-multi-thread", "sync", "time"] }
lazy_static = "*"
anyhow = "*"
tracing = "*"
tracing-subscriber = { version = "*", features = ["env-filter"] }
