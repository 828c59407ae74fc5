[package]
name = "http_server"
version = "0.1.0"
edition = "2021"
publish = false

[dependencies]
clap = { version = "4", features = ["derive"] }
env_logger = "0.11"
flate2 = "1"
log = "0.4"
thiserror = "1"
