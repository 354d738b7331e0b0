[package]
name = "vk_dev"
version = "0.1.0"
edition = "2021"
publish = false

[dependencies]
anyhow = "=1.0.104"
clap = { version = "=4.6.7", features = ["derive"] }
libc = "=0.2.191"
serde = { version = "=1.0.229", features = ["derive"] }
serde_json = { version = "=1.0.154", features = ["preserve_order"] }
serde_yaml_ng = "=0.10.0"
sha2 = "=0.10.9"
tokio = { version = "=1.54.1", features = ["rt", "time", "process", "io-util", "macros"] }
toml = "=0.8.23"
