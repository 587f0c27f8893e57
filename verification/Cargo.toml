[package]
name = "tauri-plugin-localhost"
version = "2.0.0"
edition = "2021"
publish = false

[dependencies]
http = "1"
tiny_http = "0.12"
tauri = { version = "2", default-features = false }
