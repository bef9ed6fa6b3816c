[package]
name = "systemd_pilot"
version = "0.1.0"
edition = "2021"
publish = false

[dependencies]
anyhow = "*"
dirs = "*"
serde = { version = "*", features = ["derive"] }
serde_json = "*"
