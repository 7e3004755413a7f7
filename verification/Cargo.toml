[package]
name = "cloudsaving"
version = "0.1.0"
edition = "2021"
publish = false

[dependencies]
marked-yaml = "*"
serde_yaml = "0.9"
toml = "*"
clap = { version = "4", features = ["derive"] }
