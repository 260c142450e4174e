[package]
name = "payments_engine"
version = "0.1.0"
edition = "2021"
publish = false

[dependencies]
rust_decimal = "1"
serde = { version = "1", features = ["derive"] }
csv = "1"
tokio = { version = "1", features = ["full"] }
async-channel = "*"
futures = "0.3"
futures-lite = "*"
log = "0.4"
env_logger = "*"
