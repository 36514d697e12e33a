[package]
name = "teangadb"
version = "0.1.0"
edition = "2021"
publish = false

[dependencies]
sled = "*"
sha2 = "*"
base64 = "*"
serde = { version = "*", features = ["derive"] }
serde_json = "*"
