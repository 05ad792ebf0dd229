[package]
name = "fel4-config"
version = "0.1.0"
edition = "2021"
publish = false

[dependencies]
toml = "0.4"
