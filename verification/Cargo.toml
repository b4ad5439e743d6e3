[package]
name = "mc-crawler"
version = "0.1.0"
edition = "2021"
publish = false

[dependencies]
base64 = "0.21"
chrono = "0.4"
csv = "1"
env_logger = "0.10"
log = "0.4"
maxminddb = "0.23"
serde = { version = "1", features = ["derive"] }
serde_json = "1"
structopt = "0.3"
url = "2"
