[package]
name = "slithery"
version = "0.1.0"
edition = "2021"
publish = false

[dependencies]
rand = "0.8"
pixels = "0.9"
winit = "0.26"
rusttype = "0.9"
