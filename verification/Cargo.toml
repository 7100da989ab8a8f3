[package]
name = "gyoretu"
version = "0.1.0"
edition = "2021"
publish = false

[dependencies]
regex = "1"
bytemuck = "1"
chrono = "0.4"
egui = "0.28"
egui-wgpu = { version = "0.28", default-features = false }
env_logger = { version = "0.11", default-features = false }
futures-intrusive = "0.5"
image = { version = "0.24", default-features = false, features = ["png"] }
log = "0.4"
serde = { version = "1", features = ["derive"] }
serde_yaml = "0.9"
strum = "0.26"
strum_macros = "0.26"
wgpu = { version = "0.20", default-features = false, features = ["wgsl"] }
