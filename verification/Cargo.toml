[package]
name = "mping"
version = "0.1.0"
edition = "2021"
publish = false

[dependencies]
rand = "=0.8.8"
socket2 = { version = "=0.6.5", features = ["all"] }
rate_limit = "=0.1.1"
ticker = "=0.1.1"
log = "*"
env_logger = "*"
anyhow = "*"

[dev-dependencies]
pnet_packet = "=0.35.0"
