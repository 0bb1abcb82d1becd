[package]
name = "languages-rs"
version = "0.1.0"
edition = "2021"
publish = false

[dependencies]
anyhow = "1.0"
serde_json = "1.0"
toml = "0.5"
