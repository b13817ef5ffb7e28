[package]
name = "xelgui"
version = "0.1.0"
edition = "2021"
publish = false

[dependencies]
bytemuck = { version = "=1.25.2", features = ["derive"] }
env_logger = "=0.11.11"
fontdue = "=0.9.5"
glam = { version = "=0.30.10", features = ["bytemuck"] }
image = { version = "=0.25.10", default-features = false, features = ["png"] }
pollster = "=0.4.0"
wgpu = "=28.0.0"
winit = "=0.30.13"
