[package]
name = "amux"
version = "0.1.0"
edition = "2021"
publish = false

[dependencies]
anyhow = "=1.0.104"
clap = { version = "=4.6.7", features = ["derive"] }
crossterm = { version = "=0.28.1", features = ["event-stream"] }
futures = "=0.3.34"
nix = { version = "=0.29.0", features = ["fs", "process", "signal", "term", "user"] }
serde = { version = "=1.0.229", features = ["derive"] }
serde_json = "=1.0.151"
strip-ansi-escapes = "=0.2.1"
tokio = { version = "=1.53.2", features = ["full"] }
tracing = "=0.1.44"
tracing-subscriber = { version = "=0.3.23", features = ["env-filter"] }
