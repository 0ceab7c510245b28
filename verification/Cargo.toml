[package]
name = "helyos_cli"
version = "0.3.1"
edition = "2021"
publish = false

[dependencies]
anyhow = "=1.0.104"
base64 = "=0.23.1"
chrono = "=0.4.45"
clap = { version = "=4.6.7", features = ["derive", "env"] }
clap_complete = "=4.6.11"
console = "=0.16.6"
crossterm = "=0.29.0"
dialoguer = "=0.12.0"
flate2 = "=1.1.10"
futures = "=0.3.34"
indicatif = "=0.18.6"
ratatui = "=0.30.2"
reqwest = { version = "=0.12.28", default-features = false, features = ["json", "stream", "rustls-tls"] }
serde = { version = "=1.0.229", features = ["derive"] }
serde_json = "=1.0.154"
serde_yaml_ng = "=0.10.0"
sha2 = "=0.10.9"
tar = "=0.4.46"
tokio = { version = "=1.54.1", features = ["rt-multi-thread", "macros", "time", "sync"] }
urlencoding = "=2.1.3"
