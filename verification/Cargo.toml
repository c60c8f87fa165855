[package]
name = "hltb_bot"
version = "0.1.0"
edition = "2021"
publish = false

[dependencies]
reqwest = { version = "=0.12.28", default-features = false, features = ["json", "cookies", "rustls-tls"] }
serde = { version = "=1.0.229", features = ["derive"] }
serde_json = "=1.0.154"
futures = "=0.3.34"
tokio = { version = "=1.54.1", features = ["macros", "rt-multi-thread", "time"] }
lambda_runtime = "=1.5.0"
frankenstein = { version = "=0.52.1", features = ["client-ureq"] }
log = "=0.4.35"
simple_logger = "=5.2.0"
