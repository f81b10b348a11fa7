[package]
name = "voxel_engine"
version = "0.1.0"
edition = "2021"
publish = false

[dependencies]
rand = "0.8"
noise = "0.9"
bevy = { version = "0.16", default-features = false, features = ["std", "bevy_pbr", "bevy_ui", "bevy_text", "bevy_window"] }
