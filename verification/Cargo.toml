[package]
name = "bathtub"
version = "0.1.0"
edition = "2021"
publish = false

[dependencies]
chrono = "0.4"
serde = { version = "1", features = ["derive"] }
toml = "0.5"
serialport = { version = "4", default-features = false }
users = "0.11"
cfg-if = "1"
image = { version = "0.23", default-features = false, features = ["ico"] }
iced = { version = "0.3", default-features = false, features = ["glow", "tokio"] }
