[package]
name = "hurno"
version = "0.1.0"
edition = "2021"
publish = false

[dependencies]
fastrand = "2"
glam = "0.29"
noise = "0.9"
anyhow = "1"
serde = { version = "1", features = ["derive"] }
toml = "0.8"
bytemuck = { version = "1", features = ["derive"] }
image = { version = "0.25", default-features = false, features = ["png"] }
pollster = "0.4"
tracing-subscriber = { version = "0.3", features = ["env-filter"] }
wgpu = "23"
winit = "0.30"
