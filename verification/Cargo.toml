[package]
name = "ahgroupbot"
version = "0.1.0"
edition = "2021"
publish = false

[dependencies]
regex = "=1.13.1"
anyhow = "=1.0.104"
log = "=0.4.34"
env_logger = "=0.11.11"
futures = "=0.3.34"
serde = { version = "=1.0.229", features = ["derive"] }
sonic-rs = "=0.5.10"
takecell = "=0.1.1"
teloxide = { version = "=0.17.0", default-features = false, features = ["rustls"] }
tokio = { version = "=1.53.2", features = ["rt", "rt-multi-thread", "macros", "time", "sync", "fs", "io-util"] }

[dev-dependencies]
rand = "=0.10.3"
tempfile = "=3.27.0"
