[package]
name = "radiocast"
version = "0.1.0"
edition = "2021"
publish = false

[dependencies]
tokio = { version = "1", features = ["full"] }
hyper = { version = "0.14", features = ["full"] }
hyper-tls = "0.5"
futures = "0.3"
log = "0.4"
env_logger = "0.11"
scraper = "0.20"
