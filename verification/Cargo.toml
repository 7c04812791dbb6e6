[package]
name = "rust_connect4"
version = "0.1.0"
edition = "2021"
publish = false

[dependencies]
pyo3 = "0.23"
serde = "1"

[dev-dependencies]
bincode = "1"
serde_json = "1"
