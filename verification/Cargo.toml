[package]
name = "neopilot_models"
version = "0.1.0"
edition = "2021"
publish = false

[dependencies]
regex = "1"
dashmap = "*"
serde = { version = "1", features = ["derive"] }
serde_json = "1"
toml = "*"
schemars = "0.8"
rayon = "1"
thiserror = "*"
anyhow = "1"
chrono = "0.4"
tracing = "0.1"
tracing-subscriber = { version = "0.3", features = ["env-filter"] }
tokio = { version = "1", features = ["full"] }
axum = "0.7"
tower = "0.4"
tower-http = { version = "0.5", features = ["cors", "fs", "compression-gzip"] }
clap = { version = "4", features = ["derive"] }
clap-verbosity-flag = "*"
indicatif = "*"
console = "*"
lazy_static = "1"
