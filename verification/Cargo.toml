[package]
name = "notebook"
version = "0.1.0"
edition = "2021"
publish = false

[dependencies]
futures = "=0.3.34"
log = "=0.4.35"
pyo3 = { version = "=0.21.2", default-features = false, features = ["macros", "experimental-async", "abi3-py38"] }
serde = { version = "=1.0.229", features = ["derive"] }
serde_json = { version = "=1.0.154", features = ["preserve_order"] }
smol = "=1.3.0"
tokio = { version = "=1.54.1", features = ["sync"] }
