[package]
name = "rusty-blog"
version = "0.1.0"
edition = "2021"
publish = false

[dependencies]
actix-web = { version = "4", default-features = false, features = ["macros"] }
chrono = "0.4"
env_logger = "0.11"
handlebars = "6"
log = "0.4"
mdbook = { version = "0.4", default-features = false }
serde = { version = "1", features = ["derive"] }
serde_yaml = "0.9"
