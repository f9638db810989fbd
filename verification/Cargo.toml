[package]
name = "fcpe_mlxrs"
version = "0.1.0"
edition = "2021"
publish = false

[dependencies]
mlx-rs = { version = "*", default-features = false }
ndarray = "*"
safetensors = "*"
metal = "*"
