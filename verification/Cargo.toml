[package]
name = "climsim"
version = "0.1.0"
edition = "2021"
publish = false

[dependencies]
ndarray = "0.15"
numpy = "0.21"
pyo3 = "0.21"
rayon = "1"
simsimd = "*"
