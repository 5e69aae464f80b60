[package]
name = "bevy_text_gizmos"
version = "0.1.0"
edition = "2021"
publish = false

[dependencies]
bevy_math = "*"
bevy_color = "*"
bevy_gizmos = { version = "*", default-features = false }
