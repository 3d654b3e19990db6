[package]
name = "buitenzorg"
version = "0.1.0"
edition = "2021"
publish = false

[dependencies]
noto-sans-mono-bitmap = "=0.4.0"
