[package]
name = "census"
version = "0.1.0"
edition = "2021"
publish = false

[dependencies]
log = "0.4"
serde = { version = "=1.0.229", features = ["derive"] }
toml = "=0.4.10"
