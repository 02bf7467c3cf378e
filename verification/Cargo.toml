[package]
name = "genai_core"
version = "0.1.0"
edition = "2021"
publish = false

[dependencies]
dashmap = "5"
actix-web = "4"
actix-cors = "0.6"
actix-files = "0.6"
dotenv = "0.15"
env_logger = "0.10"
log = "0.4"
serde = { version = "1", features = ["derive"] }
