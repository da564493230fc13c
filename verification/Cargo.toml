[package]
name = "newfilenodes"
version = "0.1.0"
edition = "2021"
publish = false

[dependencies]
blake2 = "0.10"
rand = "0.8"
tokio = { version = "1", features = ["rt", "sync"] }
