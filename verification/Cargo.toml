[package]
name = "plclink"
version = "0.1.0"
edition = "2021"
publish = false

[dependencies]
tokio = { version = "1", features = ["net", "sync", "time", "io-util", "rt", "macros"] }
tracing = "0.1"
