[package]
name = "buttsbot"
version = "0.1.0"
edition = "2021"
publish = false

[dependencies]
rand = "0.8"
serenity = "0.11"
tokio = { version = "1", features = ["macros", "rt-multi-thread", "sync", "time"] }
dotenv = "0.15"
env_logger = "0.9"
lazy_static = "1"
log = "0.4"
