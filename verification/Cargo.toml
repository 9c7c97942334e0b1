[package]
name = "celestial"
version = "0.1.0"
edition = "2021"
publish = false

[dependencies]
bevy = { version = "0.14", default-features = false }
noise = "0.9"
rand = "0.8"
