[package]
name = "scarf"
version = "0.1.0"
edition = "2021"
publish = false

[dependencies]
anyhow = "=1.0.104"
clap = { version = "=4.6.7", features = ["derive"] }
comfy-table = "=8.0.1"
console = "=0.16.6"
flate2 = "=1.1.10"
indicatif = "=0.18.6"
kdam = { version = "=0.6.4", features = ["rich", "spinner"] }
log = "=0.4.34"
owo-colors = "=4.4.0"
rayon = "=1.12.0"
reqwest = { version = "=0.12.28", default-features = false, features = ["blocking", "json", "rustls-tls"] }
serde = { version = "=1.0.229", features = ["derive"] }
serde_json = "=1.0.151"
tar = "=0.4.46"
wait-timeout = "=0.2.1"
walkdir = "=2.5.0"
