[package]
name = "engine_rs"
version = "0.1.0"
edition = "2021"
publish = false

[dependencies]
beryllium = "*"
