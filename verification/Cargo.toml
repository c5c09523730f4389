[package]
name = "mud_core"
version = "0.1.0"
edition = "2021"
publish = false

[dependencies]
rand = "0.8"
regex = "1"
serde = { version = "1", features = ["derive"] }
serde_json = "1"
serde_yaml = "0.9"
tokio = { version = "1", features = ["full"] }
warp = "0.3"
futures-util = "0.3"
log = "0.4"
env_logger = "0.10"
once_cell = "1"
