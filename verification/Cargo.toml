[package]
name = "license_fetcher"
version = "0.1.0"
edition = "2021"
publish = false

[dependencies]
bincode = "=2.0.1"
miniz_oxide = "=0.8.9"
serde_json = "=1.0.151"
serde = { version = "=1.0.229", features = ["derive"] }
directories = "=5.0.1"
clap = { version = "=4.6.7", features = ["derive"] }
