[package]
name = "mumble_core"
version = "0.1.0"
edition = "2021"
publish = false

[dependencies]
scc = "*"
tokio = { version = "*", features = ["rt-multi-thread", "sync", "time", "net", "io-util", "macros"] }
axum = "*"
serde = { version = "*", features = ["derive"] }
bytes = "*"
anyhow = "*"
tracing = "*"
