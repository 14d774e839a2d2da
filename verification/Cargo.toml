[package]
name = "toy_physics"
version = "0.1.0"
edition = "2021"
publish = false

[dependencies]
num = { version = "=0.4.3", default-features = false, features = ["std"] }
winit = { version = "=0.29.15", default-features = false, features = ["rwh_06", "x11"] }
wgpu = { version = "27", default-features = false, features = ["std", "vulkan", "wgsl"] }
bytemuck = "=1.25.2"
pollster = "=0.3.0"
log = "=0.4.34"
env_logger = { version = "=0.11.11", default-features = false }
rayon = "=1.12.0"
