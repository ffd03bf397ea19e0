[package]
name = "artbabo"
version = "0.1.0"
edition = "2021"
publish = false

[dependencies]
async-channel = "2"
bincode = "1.3"
chrono = "0.4"
colored = "2"
dotenv = "0.15"
env_logger = "0.11"
futures-util = "0.3"
log = "0.4"
rand = "0.8"
reqwest = { version = "0.12", default-features = false, features = ["json", "rustls-tls"] }
rocket = "0.5"
rocket_ws = "0.1"
serde = { version = "1", features = ["derive"] }
serde_json = "1"
tokio = { version = "1", features = ["sync", "time", "rt", "macros"] }
