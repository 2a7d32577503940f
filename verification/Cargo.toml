[package]
name = "sample_relay"
version = "0.1.0"
edition = "2021"
publish = false

[dependencies]
csv = "=1.4.0"
crossbeam = "=0.8.5"
float_duration = { version = "=0.3.3", default-features = false }
rocket = "=0.5.2"
rust-embed = "=8.13.0"
serde = { version = "=1.0.229", features = ["derive"] }
serde_json = "=1.0.154"
websocket = { version = "=0.27.1", default-features = false, features = ["sync"] }
