[package]
name = "sidecar_lifecycle"
version = "0.1.0"
edition = "2021"
publish = false

[dependencies]
anyhow = "1"
dotenvy = "0.15"
tokio = { version = "1", features = ["rt", "net", "sync", "signal", "time", "io-util"] }
tracing = "0.1"
