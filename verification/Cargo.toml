[package]
name = "that_tools"
version = "0.1.0"
edition = "2021"
publish = false

[dependencies]
tiktoken-rs = "*"
serde = { version = "1", features = ["derive"] }
serde_json = "1"
anyhow = "1"
thiserror = "*"
tracing = "0.1"
git2 = { version = "*", default-features = false }
