[package]
name = "valkeeper"
version = "0.1.0"
edition = "2021"
publish = false

[dependencies]
anyhow = "*"
argh = "*"
arc-swap = "*"
dashmap = "*"
futures-util = "*"
tokio = { version = "*", features = ["macros", "rt-multi-thread", "sync", "time", "signal"] }
tokio-util = "*"
tracing = "*"
tracing-subscriber = "*"
