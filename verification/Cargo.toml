[package]
name = "minecraft_discord_alerts"
version = "0.1.0"
edition = "2021"
publish = false

[dependencies]
env_logger = "=0.11.11"
log = "=0.4.34"
reqwest = { version = "=0.12.28", features = ["json"] }
rust-mc-status = "=2.0.0"
serde = { version = "=1.0.229", features = ["derive"] }
tokio = { version = "=1.54.1", features = ["macros", "rt-multi-thread", "time"] }
