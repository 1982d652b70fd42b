[package]
name = "redis_cleanup"
version = "0.1.0"
edition = "2021"
publish = false

[dependencies]
clap = { version = "4", features = ["derive", "env"] }
eyre = "0.6"
rand = "0.9"
redis = "*"
ulid = "1"
url = "2"
