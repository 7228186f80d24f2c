[package]
name = "lowpass_analysis"
version = "0.1.0"
edition = "2021"
publish = false

[dependencies]
ash = "*"
eframe = { version = "*", default-features = false, features = ["wgpu", "default_fonts", "wayland", "x11"] }
egui = "*"
egui-wgpu = "*"
ffmpeg-next = "*"
libc = "*"
thiserror = "*"
tracing = "*"
tracing-subscriber = "*"
uuid = "*"
wgpu = "*"
wgpu-hal = { version = "*", features = ["vulkan"] }
