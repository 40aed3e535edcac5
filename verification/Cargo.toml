[package]
name = "transitive_proxy"
version = "0.1.0"
edition = "2021"
publish = false

[dependencies]
actix-web = "*"
awc = { version = "*", features = ["rustls-0_23"] }
clap = { version = "*", features = ["derive"] }
env_logger = "*"
log = "*"
rustls = "*"
rustls-platform-verifier = "*"
