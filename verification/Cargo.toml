[package]
name = "tinta-core"
version = "0.2.1"
edition = "2021"
publish = false

[dependencies]
hkdf = "0.12"
sha2 = "0.10"
base64 = "0.22"
hex = "0.4"
serde = { version = "1", features = ["derive"] }
serde_json = "1"
anyhow = "1"
uuid = { version = "1", features = ["v4"] }
rand = "0.8"
rusqlite = { version = "0.31", features = ["bundled"] }
