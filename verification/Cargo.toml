[package]
name = "mavlink2rest"
version = "0.1.0"
edition = "2021"
publish = false

[dependencies]
regex = "*"
chrono = "*"
mavlink = "*"
actix = "*"
actix-web = "*"
actix-web-actors = "*"
actix-cors = "*"
serde = { version = "*", features = ["derive"] }
serde_json = "*"
log = "*"
env_logger = "*"
