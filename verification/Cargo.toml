[package]
name = "plm"
version = "0.1.0"
edition = "2021"
publish = false

[dependencies]
semver = "=1.0.28"
argon2 = { version = "=0.5.3", features = ["std"] }
anyhow = "=1.0.104"
clap = { version = "=4.6.7", features = ["derive"] }
colored = "=2.2.0"
dialoguer = "=0.11.0"
dirs = "=5.0.1"
env_logger = "=0.10.2"
exitcode = "=1.1.2"
jsonwebtoken = "=9.3.1"
log = "=0.4.35"
serde = { version = "=1.0.229", features = ["derive"] }
serde_json = { version = "=1.0.154", features = ["preserve_order"] }
serde_yaml = "=0.9.34"
thiserror = "=1.0.69"
tokio = { version = "=1.54.1", features = ["full"] }
tracing-subscriber = "=0.3.23"
dotenvy = "=0.15.7"
lazy_static = "=1.5.1"
human-panic = "=1.2.3"
indicatif = "=0.17.11"
