[package]
name = "depict"
version = "0.1.0"
edition = "2021"
publish = false

[dependencies]
rectangle-pack = "0.4"
fontdue = "0.9"
glam = "0.28"
bytemuck = { version = "1", features = ["derive"] }
wgpu = "22"
winit = "0.30"
pollster = "0.3"
env_logger = "0.11"
image = { version = "0.25", default-features = false, features = ["png"] }
num = "0.4"
