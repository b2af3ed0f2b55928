[package]
name = "parametric_meshes"
version = "0.1.0"
edition = "2021"
publish = false

[dependencies]
bytemuck = { version = "=1.25.2", features = ["derive"] }
glam = "0.30"
log = "=0.4.35"
pollster = "=1.0.1"
web-time = "=1.1.0"
wgpu = "=30.0.1"
winit = "=0.30.13"
