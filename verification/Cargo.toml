[package]
name = "emskin"
version = "0.1.0"
edition = "2021"
publish = false

[dependencies]
clap = { version = "=4.6.7", features = ["derive"] }
cosmic-text = "=0.19.0"
include_dir = "=0.7.4"
libc = "=0.2.191"
png = "=0.17.16"
serde = { version = "=1.0.229", features = ["derive"] }
signal-hook = "=0.3.18"
smithay = { version = "=0.7.0", default-features = false, features = ["backend_winit", "desktop", "renderer_gl", "wayland_frontend", "xwayland"] }
smithay-client-toolkit = { version = "*", default-features = false }
tracing = "=0.1.44"
tracing-subscriber = { version = "=0.3.23", features = ["env-filter"] }
wayland-client = "=0.31.15"
wayland-protocols = { version = "=0.32.13", features = ["client", "staging"] }
x11rb = { version = "=0.14.0", features = ["xfixes"] }
