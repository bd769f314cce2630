[package]
name = "b_rs"
version = "0.1.0"
edition = "2021"
publish = false

[dependencies]
anyhow = "1"
async-trait = "0.1"
base64 = "=0.22.1"
chrono = { version = "=0.4.45", features = ["serde"] }
chrono-tz = "=0.10.4"
crossterm = "0.28"
ed25519-dalek = { version = "=2.2.0", features = ["pem", "pkcs8", "rand_core"] }
egui = "0.29"
egui_plot = "0.29"
futures-util = "0.3"
image = { version = "0.25", default-features = false, features = ["png"] }
rand_core = { version = "0.6", features = ["getrandom"] }
ratatui = "0.29"
reqwest = { version = "0.12", default-features = false, features = ["rustls-tls", "json", "cookies", "stream"] }
rusqlite = { version = "0.32", features = ["bundled"] }
serde = { version = "1", features = ["derive"] }
serde_json = "=1.0.154"
tokio = { version = "1", features = ["full"] }
toml = "0.8"
uuid = { version = "1", features = ["v4"] }
