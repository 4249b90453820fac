[package]
name = "audioserve"
version = "0.1.0"
edition = "2021"
publish = false

[dependencies]
anyhow = "1"
bincode = "1"
bytes = "1"
chrono = "0.4"
crossbeam-channel = "0.5"
dashmap = "5"
env_logger = "0.10"
futures = "0.3"
headers = "0.3"
hyper = { version = "0.14", features = ["full"] }
lofty = "0.12"
log = "0.4"
mime = "0.3"
mime_guess = "2"
nix = "0.26"
notify = "4"
percent-encoding = "2"
rand = "0.8"
regex = "1"
ring = "0.17"
serde = { version = "1", features = ["derive"] }
serde_json = "1"
sled = "0.34"
tokio = { version = "1", features = ["full"] }
tokio-tungstenite = "0.18"
unicase = "2"
url = "2"
uuid = { version = "1", features = ["v4"] }
