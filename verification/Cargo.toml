[package]
name = "tqc_emu"
version = "0.1.0"
edition = "2021"
publish = false

[dependencies]
nalgebra = "*"
numpy = "*"
pyo3 = "*"
