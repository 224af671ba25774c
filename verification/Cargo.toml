[package]
name = "minicache"
version = "0.1.0"
edition = "2021"
publish = false

[dependencies]
dashmap = "*"
tokio = { version = "*", features = ["rt-multi-thread", "net", "io-util", "time", "macros"] }
clap = { version = "*", features = ["derive"] }
env_logger = "*"
log = "*"
anyhow = "*"
