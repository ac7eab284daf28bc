[package]
name = "pixel_spaceships_core"
version = "0.1.0"
edition = "2021"
publish = false

[dependencies]
glam = { version = "*", features = ["serde"] }
serde = { version = "*", features = ["derive"] }
strum = { version = "*", features = ["derive"] }
