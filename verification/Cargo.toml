[package]
name = "nerve_core"
version = "0.1.0"
edition = "2021"
publish = false

[dependencies]
anyhow = "*"
async-trait = "*"
duration-string = "*"
lazy_static = "*"
log = "*"
mini-rag = "*"
regex = "*"
serde = { version = "*", features = ["derive"] }
tokio = { version = "*", features = ["time", "rt"] }
