[package]
name = "xtea"
version = "0.1.0"
edition = "2021"
publish = false

[dependencies]
dlopen = "=0.1.8"
dlopen_derive = "=0.1.4"
image = { version = "=0.24.9", default-features = false, features = ["png"] }
imgui = { version = "=0.11.0", features = ["docking"] }
imgui-wgpu = "=0.23.0"
imgui-winit-support = "=0.11.0"
log = "=0.4.34"
once_cell = "=1.21.4"
pollster = "=0.3.0"
wgpu = { version = "=0.16.3", default-features = false }
winit = { version = "=0.27.5", default-features = false, features = ["x11"] }
