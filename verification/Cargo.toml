[package]
name = "world"
version = "0.1.0"
edition = "2021"
publish = false

[dependencies]
rand = "0.8"
voronoice = "0.2"
image = { version = "0.24", default-features = false, features = ["png", "jpeg"] }
serde = { version = "1", features = ["derive"] }
serde_json = "1"
bincode = "1.3"
