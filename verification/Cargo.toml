[package]
name = "formflight"
version = "0.1.0"
edition = "2021"
publish = false

[dependencies]
legion = "=0.4.0"
nalgebra = "=0.35.0"
ndarray = "=0.15.6"
ndarray-stats = "=0.5.1"
rust-optimal-transport = { version = "=0.2.0", default-features = false }
serde_json = "=1.0.151"
uuid = { version = "=1.27.0", features = ["v4"] }
