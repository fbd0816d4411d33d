[package]
name = "zsteg"
version = "0.1.0"
edition = "2021"
publish = false

[dependencies]
anyhow = "1"
clap = { version = "4", features = ["derive"] }
colored = "2"
flate2 = "1"
image = { version = "0.25", default-features = false, features = ["png", "bmp"] }
