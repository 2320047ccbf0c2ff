[package]
name = "nautilus_mint"
version = "0.1.0"
edition = "2021"
publish = false

[dependencies]
anyhow = "1"
derive_builder = "0.20"
indexmap = "2"
serde = { version = "1", features = ["derive"] }

[dev-dependencies]
serde_json = "1"
