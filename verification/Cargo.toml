[package]
name = "netmon"
version = "0.1.0"
edition = "2021"
publish = false

[dependencies]
serde = { version = "=1.0.229", features = ["derive"] }
serde_json = "=1.0.154"
tracing = "=0.1.44"
tracing-subscriber = { version = "=0.3.23", features = ["env-filter", "json"] }
tokio = { version = "1", features = ["rt-multi-thread", "macros", "net", "signal", "io-util", "time", "sync"] }
prometheus = { version = "0.13", default-features = false }
