[package]
name = "simple_gal"
version = "0.1.0"
edition = "2021"
publish = false

[dependencies]
chrono = "=0.4.45"
prometheus_exporter_base = "=1.4.0"
serde = { version = "=1.0.229", features = ["derive"] }
serde_json = "=1.0.151"
toml = "=1.1.7"
log = "=0.4.34"
fern = "=0.7.1"
snafu = "=0.9.2"
