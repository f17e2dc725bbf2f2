[package]
name = "sprite_codec"
version = "0.1.0"
edition = "2021"
publish = false

[dependencies]
image = { version = "0.25", default-features = false, features = ["bmp"] }
serde = { version = "1", features = ["derive"] }
serde_with = "3"
