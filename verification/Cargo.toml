[package]
name = "mdbook_github_authors"
version = "0.1.0"
edition = "2021"
publish = false

[dependencies]
anyhow = "=1.0.104"
clap = { version = "=4.6.7", features = ["derive"] }
env_logger = "=0.11.11"
handlebars = "=6.4.4"
log = "=0.4.34"
mdbook = { version = "=0.4.52", default-features = false }
serde = { version = "=1.0.229", features = ["derive"] }
serde_json = "=1.0.151"
