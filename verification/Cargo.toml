[package]
name = "pixelate"
version = "0.1.0"
edition = "2021"
publish = false

[dependencies]
anyhow = "=1.0.104"
clap = { version = "=4.6.7", features = ["derive"] }
color_quant = "=1.1.0"
image = { version = "=0.25.10", default-features = false, features = ["png", "jpeg", "gif", "bmp"] }
serde = { version = "=1.0.229", features = ["derive"] }
toml = "=0.8.23"
