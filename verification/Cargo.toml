[package]
name = "epifaneia"
version = "0.1.0"
edition = "2021"
publish = false

[dependencies]
wgpu = "0.12"
winit = "0.26"
serde_json = "1"
bytemuck = { version = "1", features = ["derive"] }
async-std = { version = "1", features = ["attributes"] }
