[package]
name = "dist_sys_challenge"
version = "0.1.0"
edition = "2021"
publish = false

[dependencies]
anyhow = "1"
futures = "0.3"
serde = { version = "1", features = ["derive"] }
serde_json = "1"
tokio = { version = "1", features = ["io-std", "io-util", "macros", "rt", "sync", "time"] }
tokio-stream = "0.1"
tokio-util = { version = "0.7", features = ["codec"] }
