[package]
name = "conway"
version = "0.1.0"
edition = "2021"
publish = false

[dependencies]
env_logger = "*"
image = { version = "*", default-features = false, features = ["png"] }
log = "*"
noise = "*"
pixels = "*"
rand = "*"
winit = "*"
