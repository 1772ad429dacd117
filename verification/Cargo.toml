[package]
name = "nodedesk"
version = "0.1.0"
edition = "2021"
publish = false

[dependencies]
hmac = "=0.12.1"
sha2 = "=0.10.9"
rand = "=0.8.8"
keyring = { version = "=3.6.3", features = ["apple-native", "windows-native", "async-secret-service", "crypto-rust", "tokio"] }
base64 = "=0.22.1"
serde = { version = "=1.0.229", features = ["derive"] }
serde_json = "=1.0.154"
dirs = "=5.0.1"
tokio = { version = "=1.54.1", features = ["rt-multi-thread", "macros", "net", "time"] }
axum = "=0.7.9"
reqwest = { version = "=0.12.28", default-features = false, features = ["json"] }
sysinfo = "=0.32.1"
mac_address = "=1.2.1"
zip = { version = "=2.6.1", default-features = false, features = ["deflate"] }
