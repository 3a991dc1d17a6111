[package]
name = "eldenring_remapper"
version = "0.1.0"
edition = "2021"
publish = false

[dependencies]
dataview = "=1.1.0"
pelite = "=0.10.0"
ini = "=2.0.0"
serde = { version = "=1.0.229", features = ["derive"] }
serde_json = "=1.0.151"
