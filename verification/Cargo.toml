[package]
name = "turbogate"
version = "0.1.0"
edition = "2021"
publish = false

[dependencies]
rand = "0.8"
ipnetwork = "*"
dashmap = "*"
tokio = { version = "*", features = ["rt-multi-thread", "net", "io-util", "time", "signal", "sync", "macros"] }
clap = { version = "*", features = ["derive"] }
anyhow = "*"
tracing = "*"
tracing-subscriber = { version = "*", features = ["env-filter"] }
notify = "*"
uuid = { version = "*", features = ["v4"] }
