[package]
name = "gitorg"
version = "0.1.0"
edition = "2021"
publish = false

[dependencies]
chrono = "=0.4.45"
clap = { version = "=4.6.7", features = ["derive"] }
comfy-table = "=8.0.1"
dirs = "=7.0.0"
octocrab = "=0.41.2"
open = "=5.4.4"
owo-colors = "=4.4.0"
rpassword = "=7.5.4"
serde = { version = "=1.0.229", features = ["derive"] }
serde_json = "=1.0.151"
tokio = { version = "=1.53.2", features = ["macros", "rt-multi-thread"] }
toml = "=1.1.7"
