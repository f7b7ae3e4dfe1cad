[package]
name = "table_bot"
version = "0.1.0"
edition = "2021"
publish = false

[dependencies]
chrono = "=0.4.45"
futures = "=0.3.34"
redis = { version = "=0.21.8", features = ["tokio-comp"] }
serenity = { version = "=0.10.10", features = ["unstable_discord_api"] }
tokio = { version = "=1.54.1", features = ["macros", "rt-multi-thread"] }
