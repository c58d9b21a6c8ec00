[package]
name = "adaptive_fractal"
version = "0.1.0"
edition = "2021"
publish = false

[dependencies]
image = { version = "0.24", default-features = false, features = ["png"] }
colorgrad = "0.6"
num = "0.4"
