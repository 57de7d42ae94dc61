[package]
name = "gitmon"
version = "0.1.0"
edition = "2021"
publish = false

[dependencies]
sha1 = "*"
chrono = "*"
git2 = "*"
lettre = { version = "*", default-features = false, features = ["builder", "smtp-transport", "rustls-tls"] }
toml = "*"
serde = { version = "*", features = ["derive"] }
clap = { version = "*", features = ["derive"] }
dirs = "*"
log = "*"
env_logger = "*"
