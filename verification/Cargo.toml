[package]
name = "tiled_loader"
version = "0.1.0"
edition = "2021"
publish = false

[dependencies]
base64 = "0.13"
flate2 = "1"
serde = { version = "1", features = ["derive"] }
serde-xml-rs = "*"
walkdir = "2"
