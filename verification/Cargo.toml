[package]
name = "obscura"
version = "0.1.0"
edition = "2021"
publish = false

[dependencies]
base64 = "0.22"
sha2 = "0.10"
serde_json = "1"
rusqlite = { version = "0.32", features = ["bundled"] }
tokio = { version = "1", features = ["sync"] }
thiserror = "1"
anyhow = "1"
glow = "0.13"
libc = "0.2"
egl = "0.2"
