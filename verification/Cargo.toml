[package]
name = "twic"
version = "0.1.0"
edition = "2021"
publish = false

[dependencies]
polynomial-ring = "*"
rand = "0.9"
rand_distr = "0.5"
base64 = "0.21"
hex = "0.4"
openssl = "0.10"
serde = { version = "1", features = ["derive"] }
serde_json = "1"
rusqlite = { version = "*", features = ["bundled"] }
tokio = { version = "1", features = ["full"] }
lazy_static = "1"
chrono = "0.4"
crossterm = "0.28"
ratatui = "0.29"
color-eyre = "0.6"
rppal = "*"
