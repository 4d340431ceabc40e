[package]
name = "cce_preview"
version = "0.1.0"
edition = "2021"
publish = false

[dependencies]
calloop = "0.14"
env_logger = "0.11"
image = { version = "0.25", default-features = false, features = ["png", "jpeg", "gif", "webp", "bmp", "tiff", "ico"] }
log = "0.4"
wayland-client = "0.31"
