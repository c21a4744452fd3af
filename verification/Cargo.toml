[package]
name = "image_bank"
version = "0.1.0"
edition = "2021"
publish = false

[dependencies]
miniz_oxide = "=0.8.9"
image = { version = "=0.25.10", default-features = false, features = ["png"] }
bevy = { version = "0.15", default-features = false, features = ["bevy_asset", "bevy_core_pipeline", "bevy_render", "bevy_sprite", "bevy_text", "bevy_ui", "bevy_window"] }
