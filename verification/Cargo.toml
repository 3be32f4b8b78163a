[package]
name = "verishare"
version = "5.1.0"
edition = "2021"
publish = false

[dependencies]
aes-gcm = "=0.10.3"
dirs = "=5.0.1"
lazy_static = "=1.5.1"
local-ip-address = "=0.6.13"
rand = "=0.8.8"
serde = { version = "=1.0.229", features = ["derive"] }
serde_json = "=1.0.154"
sha2 = "=0.11.1"
socket2 = { version = "=0.5.10", features = ["all"] }
tokio = { version = "=1.54.1", features = ["full"] }
uuid = { version = "=1.29.0", features = ["v4"] }
walkdir = "=2.5.0"
x25519-dalek = "=2.0.1"
