[package]
name = "txxxt"
version = "0.1.0"
edition = "2021"
publish = false

[dependencies]
anyhow = "1"
arboard = "3"
clap = { version = "4", features = ["derive"] }
cpal = "*"
crossterm = "*"
dirs = "*"
image = { version = "0.25", default-features = false, features = ["png", "jpeg"] }
ndarray = "*"
nokhwa = { version = "*", features = ["input-native"] }
ort = { version = "2.0.0-rc.10", default-features = false, features = ["std", "ndarray"] }
ratatui = "*"
serde = { version = "1", features = ["derive"] }
toml = "*"
uuid = { version = "1", features = ["v4"] }
webrtc-audio-processing = "*"
