[package]
name = "diagramma"
version = "0.2.1"
edition = "2021"
publish = false

[dependencies]
serde = { version = "1", features = ["derive"] }
serde_json = "1"
schemars = "0.8"
smol_str = { version = "0.3", features = ["serde"] }
thiserror = "2"
