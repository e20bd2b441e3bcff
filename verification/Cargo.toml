[package]
name = "mystic_bot"
version = "0.1.0"
edition = "2021"
publish = false

[dependencies]
axum = "0.7"
chess = "3"
clap = { version = "4", features = ["derive"] }
dashmap = "6"
fen = "*"
flate2 = "1"
lru = "0.12"
once_cell = "1"
rand = "0.8"
serde = { version = "1", features = ["derive"] }
serde_json = "1"
tar = "0.4"
tokio = { version = "1", features = ["full"] }
tower-http = { version = "0.5", features = ["trace"] }
tracing = "0.1"
tracing-subscriber = "0.3"
