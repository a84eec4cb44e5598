[package]
name = "matrix_client_core"
version = "0.1.0"
edition = "2021"
publish = false

[dependencies]
tokio = { version = "1", features = ["sync", "time", "rt", "macros"] }
url = "2"
reqwest = { version = "0.12", default-features = false }
