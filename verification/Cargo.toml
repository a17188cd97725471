[package]
name = "rve"
version = "0.1.0"
edition = "2021"
publish = false

[dependencies]
crossterm = "0.28"
image = { version = "0.25", default-features = false }
rodio = { version = "0.20", default-features = false }
viuer = { version = "0.9", default-features = false }
