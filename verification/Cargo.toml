[package]
name = "callhook"
version = "0.1.0"
edition = "2021"
publish = false

[dependencies]
actix-web = { version = "4", features = ["rustls"] }
bytes = "1"
chrono = "0.4"
dotenv = "0.15"
env_logger = "0.10"
futures = "0.3"
hex = "0.4"
log = "0.4"
moka = { version = "0.12", features = ["sync"] }
rustls = "0.20"
rustls-pemfile = "1"
serde = { version = "1", features = ["derive"] }
serde_json = "1"
serde_yaml = "0.9"
sha2 = "0.10"
tokio = { version = "1", features = ["time", "sync", "macros", "rt-multi-thread"] }
