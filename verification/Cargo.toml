[package]
name = "image_viewer"
version = "0.1.0"
edition = "2021"
publish = false

[dependencies]
lru = "*"
image = "*"
eframe = { version = "*", default-features = false, features = ["glow", "default_fonts", "x11", "wayland"] }
tokio = { version = "*", features = ["rt-multi-thread"] }
futures = "*"
walkdir = "*"
