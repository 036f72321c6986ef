[package]
name = "expire_map"
version = "0.1.0"
edition = "2021"
publish = false

[dependencies]
dashmap = "*"
futures = "*"
tokio-util = { version = "*", features = ["time"] }
tokio = { version = "*", features = ["rt", "time"] }

[dev-dependencies]
