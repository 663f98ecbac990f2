[package]
name = "scorebridge"
version = "0.1.0"
edition = "2021"
publish = false

[dependencies]
clap = { version = "*", features = ["derive"] }
clearscreen = "*"
rust_socketio = "*"
serde_json = "*"
serialport = { version = "*", default-features = false }
