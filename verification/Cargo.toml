[package]
name = "codex_agents"
version = "0.1.0"
edition = "2021"
publish = false

[dependencies]
anyhow = "1"
dirs = "*"
ratatui = "*"
serde = { version = "1", features = ["derive"] }
tokio = { version = "1", features = ["fs", "rt"] }
toml = "*"
tracing = "*"

[dev-dependencies]
tempfile = "3"
