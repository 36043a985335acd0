[package]
name = "gitstatus"
version = "0.6.2"
edition = "2021"
publish = false

[dependencies]
sled = "0.34"
git2 = "*"
tokio = { version = "1", features = ["full"] }
futures = "0.3"
indicatif = "0.17"
colored = "*"
log = "0.4"
env_logger = "*"
structopt = "0.3"
dirs = "*"
toml = "*"
serde = { version = "1", features = ["derive"] }
serde_derive = "1"
tokei = "12"
