[package]
name = "metrics_port"
version = "0.1.0"
edition = "2021"
publish = false

[dependencies]
fastrand = "2"
tokio = { version = "1", features = ["rt", "sync", "time"] }
serde_json = "1"
