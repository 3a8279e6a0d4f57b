[package]
name = "voxel_engine"
version = "0.1.0"
edition = "2021"
publish = false

[dependencies]
bevy = { version = "=0.15.3", default-features = false, features = ["bevy_pbr", "bevy_ui", "bevy_window"] }
futures-lite = "=2.6.1"
