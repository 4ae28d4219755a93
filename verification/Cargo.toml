[package]
name = "copify"
version = "0.1.0"
edition = "2021"
publish = false

[dependencies]
flate2 = "1"
pathdiff = "*"
walkdir = "2"
serde = { version = "1", features = ["derive"] }
thiserror = "*"
