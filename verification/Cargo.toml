[package]
name = "ani_dl"
version = "0.1.0"
edition = "2021"
publish = false

[dependencies]
aes = "=0.8.4"
aes-gcm = "=0.10.3"
anyhow = "=1.0.104"
async-trait = "=0.1.92"
base64 = "=0.22.1"
bytes = "=1.12.1"
cbc = { version = "=0.1.2", features = ["alloc"] }
chrono = "=0.4.45"
clap = { version = "=4.6.7", features = ["derive", "env"] }
crossterm = "=0.28.1"
dirs = "=6.0.0"
futures = "=0.3.34"
hex = "=0.4.3"
indicatif = "=0.17.11"
m3u8-rs = "=6.0.1"
ratatui = "=0.29.0"
regex = "=1.13.1"
reqwest = { version = "=0.12.28", default-features = false, features = ["json", "rustls-tls"] }
serde = { version = "=1.0.229", features = ["derive"] }
serde_json = "=1.0.154"
sha2 = "=0.10.9"
tokio = { version = "=1.54.1", features = ["full"] }
toml = "=0.8.23"
