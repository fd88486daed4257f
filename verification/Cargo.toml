[package]
name = "airsend"
version = "0.1.0"
edition = "2021"
publish = false

[dependencies]
blake3 = "1"
uuid = { version = "1", features = ["v4"] }
hostname = "0.4"
serde = { version = "1", features = ["derive"] }
serde_json = "1"
thiserror = "2"
tokio = { version = "1", features = ["net", "io-util", "fs", "rt", "rt-multi-thread", "macros"] }
if-addrs = "0.13"
log = "0.4"
tauri = { version = "2", default-features = false }
