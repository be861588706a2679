[package]
name = "zeddy"
version = "0.1.0"
edition = "2021"
publish = false

[dependencies]
url = "2"
serde = { version = "1", features = ["derive"] }
serde_json = "1"
toml = "0.8"
tempfile = "3"
rusqlite = { version = "0.32", features = ["bundled"] }
rustix = { version = "0.38", features = ["fs"] }
anyhow = "1"
