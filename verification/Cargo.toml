[package]
name = "gov_decoder"
version = "0.1.0"
edition = "2021"
publish = false

[dependencies]
borsh = "1"
pyo3 = "0.20"
serde = { version = "1", features = ["derive"] }
serde_json = "1"
