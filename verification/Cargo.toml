[package]
name = "roto_api"
version = "0.1.0"
edition = "2021"
publish = false

[dependencies]
rotonda-store = "=0.2.0"
csv = "=1.4.0"
chrono = "=0.4.45"
pyo3 = "=0.22.6"
