[package]
name = "unrot_core"
version = "0.1.0"
edition = "2021"
publish = false

[dependencies]
walkdir = "2"
clap = { version = "4", features = ["derive"] }

[dev-dependencies]
tempfile = "3"
