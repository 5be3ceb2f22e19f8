[package]
name = "dfree"
version = "0.1.0"
edition = "2021"
publish = false

[dependencies]
argh = "0.1"
humansize = "2"
serde = { version = "1", features = ["derive"] }
serde_json = "1"
