[package]
name = "herd"
version = "0.2.0"
edition = "2021"
publish = false

[dependencies]
keyring = { version = "3", features = ["apple-native"] }
rusqlite = { version = "0.32", features = ["bundled"] }
serde = { version = "1", features = ["derive"] }
serde_json = "1"
uuid = { version = "1", features = ["v4"] }
chrono = "0.4"
dirs = "5"
glob = "0.3"
portable-pty = "0.8"
url = "2"
reqwest = { version = "0.12", default-features = false, features = ["json", "rustls-tls"] }
tokio = { version = "1", features = ["process", "time", "macros", "rt-multi-thread"] }
