[package]
name = "kv_core"
version = "0.1.0"
edition = "2021"
publish = false

[dependencies]
flate2 = "*"
tokio = { version = "*", features = ["sync", "rt-multi-thread", "net", "io-util", "macros", "time"] }
serde = { version = "*", features = ["derive"] }
toml = "*"
anyhow = "*"
tracing = "*"
tracing-subscriber = "*"
