[package]
name = "voxtype-review"
version = "0.1.0"
edition = "2021"
publish = false

[dependencies]
serde = "1.0"
toml = "=0.9.12"
eframe = "=0.31.1"
