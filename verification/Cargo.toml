[package]
name = "wallframe"
version = "0.1.0"
edition = "2021"
publish = false

[dependencies]
image = "*"
rusttype = "*"
chrono = "*"
winapi = { version = "0.3", features = ["winuser"] }
