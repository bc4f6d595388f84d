[package]
name = "bevui_28"
version = "0.1.0"
edition = "2021"
publish = false

[dependencies]
bevy = { version = "=0.15.3", default-features = false, features = ["bevy_ui", "bevy_text", "bevy_pbr", "bevy_window", "bevy_core_pipeline", "bevy_render", "bevy_asset"] }
serde = { version = "=1.0.229", features = ["derive"] }
serde_json = "=1.0.154"
ureq = { version = "=2.12.1", default-features = false, features = ["json", "tls"] }
