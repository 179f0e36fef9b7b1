[package]
name = "axon"
version = "0.1.0"
edition = "2021"
publish = false

[dependencies]
unicode-segmentation = "1"
unicode-width = "0.1"
termion = "1"
natord = "1"
chrono = "0.4"
url = "1"
synapse-rpc = "*"
serde = { version = "1", features = ["derive"] }
serde_json = "1"
toml = "0.5"
shellexpand = "1"
log = "0.4"
env_logger = "0.6"
futures = "0.1"
tokio = "0.1"
tokio-signal = "0.2"
tokio-tungstenite = "0.8"
parking_lot = "0.7"
bytes = "0.4"
libc = "0.2"
lazy_static = "1"
