[package]
name = "wit"
version = "0.1.0"
edition = "2021"
publish = false

[dependencies]
anyhow = "=1.0.104"
chrono = { version = "=0.4.45", features = ["serde"] }
clap = { version = "=4.6.7", features = ["derive"] }
colored = "=2.2.0"
comfy-table = "=7.2.2"
dirs = "=5.0.1"
git2 = { version = "=0.19.0", default-features = false }
reqwest = { version = "=0.12.28", default-features = false, features = ["blocking", "json", "rustls-tls"] }
rgb = "=0.8.53"
serde = { version = "=1.0.229", features = ["derive"] }
slug = "=0.1.6"
textplots = "=0.8.7"
thiserror = "=2.0.21"
toml = "=0.8.23"
