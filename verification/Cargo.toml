[package]
name = "rusty_bvg"
version = "0.1.0"
edition = "2021"
publish = false

[dependencies]
chrono = "0.4"
serde = { version = "1", features = ["derive"] }
serde_json = "1"
ureq = "2"
tracing = "0.1"
embedded-graphics = "0.7"
rpi-led-matrix = "0.4"
