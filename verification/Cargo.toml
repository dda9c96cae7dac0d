[package]
name = "md2docx"
version = "0.1.0"
edition = "2021"
publish = false

[dependencies]
anyhow = "=1.0.104"
clap = { version = "=4.6.7", features = ["derive"] }
docx-rs = "=0.4.22"
env_logger = "=0.11.11"
image = { version = "=0.25.10", default-features = false, features = ["png", "jpeg", "gif", "bmp"] }
log = "=0.4.34"
markdown = "=1.0.0"
serde = { version = "=1.0.229", features = ["derive"] }
serde_json = "=1.0.154"
yaml-front-matter = "=0.1.0"

[dev-dependencies]
regex = "=1.13.1"
