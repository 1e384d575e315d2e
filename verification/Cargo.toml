[package]
name = "utiles"
version = "0.1.0"
edition = "2021"
publish = false

[dependencies]
fast_hilbert = "=2.1.0"
geo-types = "=0.7.20"
serde = { version = "=1.0.229", features = ["derive"] }
serde_json = "=1.0.154"
rusqlite = { version = "=0.29.0", features = ["functions"] }
pyo3 = "=0.20.3"
