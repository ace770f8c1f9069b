[package]
name = "ask_jira"
version = "0.1.0"
edition = "2021"
publish = false

[dependencies]
env_logger = "0.10"
futures = "0.3"
indicatif = "0.17"
log = "0.4"
reqwest = { version = "=0.11.27", features = ["json"] }
serde_json = "=1.0.154"
structopt = "0.3"
tokio = { version = "1", features = ["full"] }
