[package]
name = "elden_runes"
version = "0.1.0"
edition = "2021"
publish = false

[dependencies]
anyhow = "*"
argh = "*"
comfy-table = "*"
serde = "*"
