[package]
name = "bevy_spicy_networking_tokio_quinn"
version = "0.1.0"
edition = "2021"
publish = false

[dependencies]
bevy = { version = "=0.5.0", default-features = false }
bevy_spicy_networking = "=0.6.0"
bincode = "=1.3.3"
futures = "=0.3.34"
futures-util = "=0.3.34"
quinn = "=0.8.5"
serde = { version = "=1.0.229", features = ["derive"] }
tokio = { version = "=1.54.1", features = ["full"] }

[dev-dependencies]
rustls = "=0.20.9"
