[package]
name = "jefscad"
version = "0.1.0"
edition = "2021"
publish = false

[dependencies]
flint = "*"
ryu = "*"
pyo3 = "*"
pyo3-stub-gen = "*"
