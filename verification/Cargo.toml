[package]
name = "voxel_compare"
version = "0.1.0"
edition = "2021"
publish = false

[dependencies]
bytemuck = { version = "1", features = ["derive"] }
fastnoise-lite = "*"
glam = "*"
wgpu = "*"
winit = "0.30"
pollster = "*"
anyhow = "1"
env_logger = "*"
log = "0.4"
