[package]
name = "nucleus_rag"
version = "0.1.0"
edition = "2021"
publish = false

[dependencies]
anyhow = "*"
portable-pty = "*"
serde = { version = "*", features = ["derive"] }
serde_json = "*"
