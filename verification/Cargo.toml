[package]
name = "bismuth"
version = "0.1.0"
edition = "2021"
publish = false

[dependencies]
chrono = { version = "0.4", features = ["serde"] }
rusqlite = { version = "*", features = ["bundled"] }
serde = { version = "1", features = ["derive"] }
serde_json = "1"
tauri = { version = "2", default-features = false }
ts-rs = "*"
urlencoding = "2"
uuid = { version = "1", features = ["v4", "serde"] }
