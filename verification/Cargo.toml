[package]
name = "dbx_storage"
version = "0.1.0"
edition = "2021"
publish = false

[dependencies]
sha2 = "=0.10.9"
uuid = { version = "=1.29.0", features = ["v4"] }
getrandom = "=0.4.3"
serde = { version = "=1.0.229", features = ["derive"] }
serde_json = "=1.0.154"
log = "=0.4.35"
chrono = "=0.4.45"
tokio = { version = "=1.54.1", features = ["sync", "rt", "macros"] }
rusqlite = { version = "=0.31.0", features = ["backup"] }
