[package]
name = "kafui"
version = "0.1.0"
edition = "2021"
publish = false

[dependencies]
clap = "*"
crossterm = "0.25"
env_logger = "*"
futures = "*"
log = "*"
rdkafka = "*"
serde = { version = "*", features = ["derive"] }
serde_json = "*"
tokio = { version = "*", features = ["macros", "rt-multi-thread"] }
tui = "0.19"
