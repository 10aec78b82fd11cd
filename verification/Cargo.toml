[package]
name = "dupdupninja"
version = "0.1.0"
edition = "2021"
publish = false

[dependencies]
blake3 = "1"
sha2 = "0.10"
infer = "0.16"
image = { version = "0.25", default-features = false, features = ["png", "jpeg", "gif", "bmp", "tiff", "webp"] }
image_hasher = "*"
serde = { version = "1", features = ["derive"] }
serde_json = "1"
walkdir = "2"
wait-timeout = "0.2"
rusqlite = { version = "*", features = ["bundled"] }
axum = "0.6"
tokio = { version = "1", features = ["rt-multi-thread", "sync", "macros"] }
tokio-stream = { version = "0.1", features = ["sync"] }
crossterm = "0.28"
ratatui = "0.29"
dirs = "5"
libc = "0.2"
