[package]
name = "ebloid"
version = "0.1.0"
edition = "2021"
publish = false

[dependencies]
url = "=2.5.8"
serde = { version = "=1.0.229", features = ["derive"] }
serde_json = "=1.0.154"
reqwest = { version = "=0.12.28", default-features = false, features = ["blocking"] }
tauri = { version = "2", default-features = false }
tauri-plugin-autostart = { version = "2", default-features = false }
tauri-plugin-deep-link = { version = "2", default-features = false }
tauri-plugin-window-state = { version = "2", default-features = false }
