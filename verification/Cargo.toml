[package]
name = "djcore"
version = "0.1.0"
edition = "2021"
publish = false

[dependencies]
blake3 = "=1.8.7"
dirs = "=7.0.0"
rodio = "=0.22.2"
serde = { version = "=1.0.229", features = ["derive"] }
serde_json = "=1.0.151"
symphonia = "=0.5.5"
