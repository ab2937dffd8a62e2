[package]
name = "potty"
version = "0.1.0"
edition = "2021"
publish = false

[dependencies]
alacritty_terminal = { version = "*", default-features = false }
bytemuck = { version = "1", features = ["derive"] }
cosmic-text = "*"
egui = { version = "0.34", default-features = false, features = ["default_fonts"] }
egui-wgpu = { version = "0.34", default-features = false }
egui-winit = { version = "0.34", default-features = false, features = ["wayland"] }
lexopt = "*"
libc = "0.2"
notify = { version = "8", default-features = false }
pollster = "*"
portable-pty = "*"
raw-window-handle = "0.6"
serde = { version = "1", features = ["derive"] }
serde_json = "1"
smithay-clipboard = { version = "*", default-features = false }
tokio = { version = "1", features = ["rt", "sync", "net", "io-util", "macros", "time"] }
toml = "*"
toml_edit = "*"
wgpu = { version = "29", default-features = false, features = ["vulkan", "wgsl"] }
winit = { version = "0.30", default-features = false, features = ["wayland", "wayland-dlopen", "rwh_06"] }
