[package]
name = "majority_bot"
version = "0.1.0"
edition = "2021"
publish = false

[dependencies]
itertools = "=0.15.0"
majority = "=0.1.15"
anyhow = "=1.0.104"
serenity = "=0.12.5"
tokio = { version = "=1.54.1", features = ["macros", "rt-multi-thread"] }
log = "=0.4.35"
env_logger = "=0.11.11"
confy = "=2.0.0"
lazy_static = "=1.5.1"
serde = { version = "=1.0.229", features = ["derive"] }
rusqlite = "=0.32.1"
