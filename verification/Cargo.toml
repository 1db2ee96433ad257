[package]
name = "cjk_proxy"
version = "0.1.0"
edition = "2021"
publish = false

[dependencies]
chacha20 = "=0.9.1"
rand = "=0.8.8"
httparse = "=1.10.1"
ipnetwork = "=0.20.0"
base64 = "=0.13.1"
serde = { version = "=1.0.229", features = ["derive"] }
serde_json = "=1.0.154"
smol = "=1.3.0"
futures-lite = "=1.13.0"
log = "=0.4.35"
anyhow = "=1.0.104"
adblock = "=0.8.12"
rmp = "=0.8.10"
chrono = { version = "=0.4.45", default-features = false, features = ["std"] }
