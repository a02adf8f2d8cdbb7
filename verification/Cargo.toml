[package]
name = "shin"
version = "0.1.0"
edition = "2021"
publish = false

[dependencies]
anyhow = "=1.0.104"
ab_glyph = "0.2"
