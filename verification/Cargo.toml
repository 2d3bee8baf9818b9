[package]
name = "tasuki"
version = "0.1.0"
edition = "2021"
publish = false

[dependencies]
chrono = "0.4"
futures = "0.3"
serde_json = "1"
toml = "*"
walkdir = "2"
dirs = "*"
shellexpand = "*"
