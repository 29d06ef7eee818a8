[package]
name = "mempool_listener"
version = "0.1.0"
edition = "2021"
publish = false

[dependencies]
dashmap = "6"
anyhow = "1"
axum = "0.8"
futures-util = "0.3"
once_cell = "1"
prometheus = "0.14"
redis = { version = "*", features = ["tokio-comp"] }
secp256k1 = { version = "*", features = ["rand"] }
serde = { version = "1", features = ["derive"] }
tokio = { version = "1", features = ["full"] }
toml = "*"
tracing = "0.1"
tracing-subscriber = "0.3"
