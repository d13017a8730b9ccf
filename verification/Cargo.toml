[package]
name = "next_animation"
version = "0.1.0"
edition = "2021"
publish = false

[dependencies]
uuid = { version = "*", features = ["v4"] }
bevy = { version = "0.14", default-features = false, features = ["bevy_asset"] }
