[package]
name = "wiki_store"
version = "0.1.0"
edition = "2021"
publish = false

[dependencies]
chrono = { version = "=0.4.45", default-features = false, features = ["clock", "std"] }
uuid = { version = "=1.29.0", features = ["v4"] }
serde = { version = "=1.0.229", features = ["derive"] }
serde_json = "=1.0.154"
log = "=0.4.34"
env_logger = "0.11"
dirs = "*"
tokio = { version = "1", features = ["time", "rt"] }
sqlx = { version = "0.8", default-features = false, features = ["runtime-tokio", "sqlite"] }
winapi = { version = "0.3", features = ["fileapi"] }
