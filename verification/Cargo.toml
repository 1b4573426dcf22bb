[package]
name = "dns_server"
version = "0.1.0"
edition = "2021"
publish = false

[dependencies]
tokio = { version = "1", features = ["net", "rt-multi-thread", "macros"] }
clap = { version = "4", features = ["derive"] }
env_logger = "0.11"
log = "0.4"
