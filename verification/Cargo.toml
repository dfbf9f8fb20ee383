[package]
name = "toml_scaffold"
version = "0.1.0"
edition = "2021"
publish = false

[dependencies]
schemars = "1"
serde = { version = "1", features = ["derive"] }
serde_json = { version = "1", features = ["preserve_order"] }
toml = { version = "0.9", features = ["preserve_order"] }
toml_writer = "1"
