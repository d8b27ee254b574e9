[package]
name = "weaver"
version = "0.1.0"
edition = "2021"
publish = false

[dependencies]
clap = { version = "4", features = ["derive"] }
crossbeam = "0.8"
csv = "1"
dashmap = "6"
env_logger = "0.11"
log = "0.4"
num_cpus = "1"
reqwest = { version = "0.12", default-features = false, features = ["charset", "http2", "rustls-tls"] }
scraper = "*"
sha2 = "0.10"
tokio = { version = "1", features = ["full"] }
url = "2"
