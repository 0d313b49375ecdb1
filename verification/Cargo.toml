[package]
name = "nuke_desktop"
version = "0.1.0"
edition = "2021"
publish = false

[dependencies]
base64 = "*"
csv = "*"
serde = { version = "*", features = ["derive"] }
serde_json = "*"
walkdir = "*"
reqwest = { version = "*", default-features = false, features = ["json"] }
tokio = { version = "*", features = ["rt", "macros"] }
