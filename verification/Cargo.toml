[package]
name = "prompt_library"
version = "0.1.0"
edition = "2021"
publish = false

[dependencies]
regex = "1"
rusqlite = { version = "*", features = ["bundled"] }
serde = { version = "1", features = ["derive"] }
serde_json = "1"
flate2 = "1"
thiserror = "2"
