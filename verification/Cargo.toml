[package]
name = "interactive_paper"
version = "0.1.0"
edition = "2021"
publish = false

[dependencies]
url = "2"
serde = { version = "1", features = ["derive"] }
serde_json = "1"
hyper = { version = "0.14", features = ["client", "http1", "tcp"] }
actix-web = "4"
actix-multipart = "0.7"
actix-rt = "2"
futures = "0.3"
env_logger = "0.11"
