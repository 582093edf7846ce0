[package]
name = "tool_calling"
version = "0.1.0"
edition = "2021"
publish = false

[dependencies]
serde_json = "1"
jsonschema = { version = "0.18", default-features = false }
serde = { version = "1", features = ["derive"] }
futures = "0.3"
once_cell = "1"
linkme = "0.3"
thiserror = "1"
reqwest = { version = "0.12", default-features = false, features = ["json"] }
