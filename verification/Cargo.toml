[package]
name = "redis_lite"
version = "0.1.0"
edition = "2021"
publish = false

[dependencies]
base64 = "0.22"
chrono = "0.4"
memchr = "2"
rand = "0.8"
tokio = { version = "1", features = ["full"] }
