[package]
name = "corsair_control"
version = "0.1.0"
edition = "2021"
publish = false

[dependencies]
rand = "0.8"
serde = { version = "1", features = ["derive"] }
ron = "0.8"
anyhow = "1"
log = "0.4"
env_logger = "0.10"
hidapi = "2"
