[package]
name = "discord_news_notify"
version = "0.1.0"
edition = "2021"
publish = false

[dependencies]
anyhow = "1"
chrono = { version = "0.4", features = ["serde"] }
config = { version = "0.15", default-features = false, features = ["toml"] }
dotenv = "0.15"
env_logger = "0.11"
log = "0.4"
rss = "2"
serde = { version = "1", features = ["derive"] }
serde_json = "1"
tokio = { version = "1", features = ["macros", "rt-multi-thread", "time", "signal"] }
twilight-http = "0.16"
twilight-model = "0.16"
ureq = "2"
url = "2"
