[package]
name = "conspire"
version = "0.1.0"
edition = "2021"
publish = false

[dependencies]
ndarray = "*"
numpy = "*"
pyo3 = { version = "*", features = ["abi3-py39"] }
