[package]
name = "pytokei"
version = "0.1.0"
edition = "2021"
publish = false

[dependencies]
tokei = "12.1"
pyo3 = "0.20"
