[package]
name = "sokutex"
version = "0.1.0"
edition = "2021"
publish = false

[dependencies]
dashmap = "5"
ahash = "0.8"
tokio = { version = "1", features = ["full"] }
notify = "6"
log = "0.4"
env_logger = "0.11"
