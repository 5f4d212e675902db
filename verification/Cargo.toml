[package]
name = "polyserve"
version = "0.1.0"
edition = "2021"
publish = false

[dependencies]
urlencoding = "*"
mime_guess = "*"
mime = "*"
chrono = "*"
config = { version = "*", default-features = false, features = ["toml"] }
handlebars = "*"
serde = { version = "*", features = ["derive"] }
async-std = "*"
futures = "*"
log = "*"
env_logger = "*"
clap = { version = "*", features = ["derive"] }
