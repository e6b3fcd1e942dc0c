[package]
name = "c1"
version = "0.1.0"
edition = "2021"
publish = false

[dependencies]
toml = { version = "0.8", features = ["preserve_order"] }
clap = { version = "4", features = ["derive"] }
