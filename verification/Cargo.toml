[package]
name = "modpack_recipes"
version = "0.1.0"
edition = "2021"
publish = false

[dependencies]
base64 = "0.22"
regex = "1"
serde = { version = "1", features = ["derive"] }
serde_json = "1"
image = { version = "0.25", default-features = false, features = ["png"] }
walkdir = "2"
zip = { version = "2", default-features = false, features = ["deflate"] }
