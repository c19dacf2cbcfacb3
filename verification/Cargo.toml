[package]
name = "cdks"
version = "0.1.0"
edition = "2021"
publish = false

[dependencies]
anyhow = "=1.0.104"
axum = "=0.8.9"
dotenv = "=0.15.0"
env_logger = "=0.11.11"
log = "=0.4.34"
neo4rs = "=0.8.0"
reqwest = { version = "=0.13.5", default-features = false, features = ["json"] }
rust-bert = "*"
serde = { version = "=1.0.229", features = ["derive"] }
serde_json = "=1.0.151"
tokio = { version = "=1.53.2", features = ["full"] }
