[package]
name = "codex_api_switcher"
version = "0.1.0"
edition = "2021"
publish = false

[dependencies]
anyhow = "1"
async-stream = "0.3"
axum = "0.8"
base64 = "0.22"
bytes = "1"
dirs = "6"
futures = "0.3"
reqwest = { version = "0.12", default-features = false, features = ["json", "stream", "rustls-tls"] }
rusqlite = { version = "*", features = ["bundled"] }
serde = { version = "1", features = ["derive"] }
serde_json = "1"
time = { version = "0.3", features = ["parsing", "formatting"] }
tokio = { version = "1", features = ["macros", "rt-multi-thread", "sync", "time", "net", "signal"] }
toml_edit = "*"
uuid = { version = "1", features = ["v4"] }
