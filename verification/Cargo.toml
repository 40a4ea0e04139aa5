[package]
name = "fixtures"
version = "0.10.0"
edition = "2021"
publish = false

[dependencies]
anyhow = "=1.0.104"
chrono = "=0.4.45"
git2 = { version = "=0.21.0", default-features = false }
rayon = "=1.12.0"
serde = { version = "=1.0.229", features = ["derive"] }
serde_json = "=1.0.154"
toml = "=1.1.8"

[dev-dependencies]
tempfile = "3"
