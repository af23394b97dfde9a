[package]
name = "cubic"
version = "0.1.0"
edition = "2021"
publish = false

[dependencies]
raw-window-handle = "0.6"
tokio = { version = "1", features = ["full"] }
tokio-util = "0.7"
wgpu = "26"
winit = "0.30"
