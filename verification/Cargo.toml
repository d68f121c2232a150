[package]
name = "aethelgard_x"
version = "0.1.0"
edition = "2021"
publish = false

[dependencies]
cozy-chess = "0.3"
once_cell = "1"
