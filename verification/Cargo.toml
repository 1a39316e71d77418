[package]
name = "endf"
version = "0.1.0"
edition = "2021"
publish = false

[dependencies]
lzma-rs = "0.3"
pyo3 = "0.23"
