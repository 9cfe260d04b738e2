[package]
name = "multicast"
version = "0.1.0"
edition = "2021"
publish = false

[dependencies]
priority-queue = "*"
tokio = { version = "1", features = ["full"] }
tokio-util = { version = "*", features = ["codec"] }
tokio-retry = "*"
futures = "*"
bytes = "*"
log = "*"
env_logger = "*"
