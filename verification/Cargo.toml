[package]
name = "explora"
version = "0.1.0"
edition = "2021"
publish = false

[dependencies]
ash = "0.38"
ash-window = "0.13"
glam = "0.29"
image = { version = "0.25", default-features = false, features = ["jpeg"] }
libc = "0.2"
libloading = "0.8"
winit = { version = "0.30", default-features = false, features = ["rwh_06", "x11", "wayland", "wayland-dlopen"] }
