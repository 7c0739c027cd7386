[package]
name = "overlay_node"
version = "0.1.0"
edition = "2021"
publish = false

[dependencies]
rand = "*"
tokio = { version = "*", features = ["full"] }
anyhow = "*"
log = "*"
env_logger = "*"
chrono = "*"
clap = { version = "*", features = ["derive"] }
