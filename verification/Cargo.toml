[package]
name = "disk_scan"
version = "0.1.0"
edition = "2021"
publish = false

[dependencies]
human_bytes = "=0.4.3"
rayon = "=1.12.0"
serde = { version = "=1.0.229", features = ["derive"] }
tauri = { version = "2", default-features = false }
