[package]
name = "fade_launcher"
version = "0.1.0"
edition = "2021"
publish = false

[dependencies]
walkdir = "*"
dirs = "*"
serde = { version = "*", features = ["derive"] }
serde_json = "*"
