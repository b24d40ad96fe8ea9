[package]
name = "soyuz_studio"
version = "0.1.0"
edition = "2021"
publish = false

[dependencies]
anyhow = "1"
dirs = "*"
pulldown-cmark = "*"
serde = { version = "1", features = ["derive"] }
serde_json = "1"
strsim = "*"
