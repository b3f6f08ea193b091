[package]
name = "editor_core"
version = "0.1.0"
edition = "2021"
publish = false

[dependencies]
rayon = "1"
reqwest = { version = "0.12", default-features = false, features = ["blocking"] }
