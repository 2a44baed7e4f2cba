[package]
name = "hafen_bot"
version = "0.1.0"
edition = "2021"
publish = false

[dependencies]
actix-rt = "*"
actix-web = { version = "*", default-features = false, features = ["macros"] }
env_logger = "*"
futures = "*"
log = "*"
rand = "*"
rusqlite = { version = "*", features = ["bundled"] }
serde = { version = "*", features = ["derive"] }
serde_json = "*"
serde_yaml = "*"
