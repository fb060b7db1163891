[package]
name = "zeron"
version = "0.1.0"
edition = "2021"
publish = false

[dependencies]
serde_json = "1"
chrono = "0.4"
tokio = { version = "1", features = ["fs", "io-util", "sync", "time", "rt", "macros"] }
