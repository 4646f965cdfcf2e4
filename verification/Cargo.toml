[package]
name = "musicplayer_continue"
version = "0.1.0"
edition = "2021"
publish = false

[dependencies]
rand = "=0.8.8"
serde_json = "=1.0.154"
rodio = "0.17"
sfml = "0.20"
winapi = { version = "=0.3.9", features = ["windef", "winuser"] }
