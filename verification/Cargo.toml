[package]
name = "cutile_quant"
version = "0.1.0"
edition = "2021"
publish = false

[dependencies]
cudarc = { version = "*", default-features = false, features = ["std", "driver", "dynamic-loading", "cuda-13000"] }
cutile = "*"
