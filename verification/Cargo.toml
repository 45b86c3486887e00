[package]
name = "bevy_react_core"
version = "0.1.0"
edition = "2021"
publish = false

[dependencies]
serde = { version = "=1.0.229", features = ["derive"] }
serde_json = "=1.0.154"
bevy = { version = "=0.19.1", default-features = false, features = ["bevy_ui", "bevy_image", "bevy_asset"] }
wgpu-types = { version = "=29.0.3", default-features = false }
crossbeam-channel = "=0.5.17"
tokio = { version = "=1.54.1", features = ["sync", "rt", "time", "macros"] }
anyhow = "=1.0.104"
ts-rs = "=12.0.1"
