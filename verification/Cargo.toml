[package]
name = "fluid_simulation"
version = "0.1.0"
edition = "2021"
publish = false

[dependencies]
glam = "=0.34.2"
log = "=0.4.35"
env_logger = "=0.11.11"
anyhow = "*"
bytemuck = { version = "*", features = ["derive"] }
pollster = "*"
wgpu = "*"
winit = "*"
egui = "*"
egui-wgpu = "*"
egui-winit = "*"
