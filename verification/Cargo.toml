[package]
name = "tcp_multiclient"
version = "0.1.0"
edition = "2021"
publish = false

[dependencies]
tokio = { version = "1", features = ["rt-multi-thread", "net", "io-util", "sync"] }
futures = "0.3"
log = "0.4"
env_logger = "0.11"
