[package]
name = "gl_renderer"
version = "0.1.0"
edition = "2021"
publish = false

[dependencies]
bytemuck = { version = "1.14", features = ["derive"] }
half = "2.3"
hecs = "0.10"
lru = "0.12"
glam = "0.25"
glow = "0.13"
rayon = "1"
winit = { version = "0.29", features = ["rwh_05"] }
glutin = "0.31"
glutin-winit = "0.4"
raw-window-handle = "0.5"
imgui = { version = "0.12", features = ["docking"] }
imgui-winit-support = "0.12"
imgui-glow-renderer = "0.12"
pyo3 = { version = "0.22", features = ["abi3-py38"] }
