[package]
name = "shbt_simulator"
version = "0.1.0"
edition = "2021"
publish = false

[dependencies]
rug = "1"
pyo3 = "0.22"
rayon = "1"
