[package]
name = "codex_status"
version = "0.1.0"
edition = "2021"
publish = false

[dependencies]
ratatui = { version = "*", default-features = false }
tokio = { version = "1", features = ["process", "time", "io-util", "rt"] }
serde = { version = "1", features = ["derive"] }
chrono = { version = "0.4", default-features = false, features = ["std"] }
futures = "0.3"
