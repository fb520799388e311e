[package]
name = "git_lineage"
version = "0.1.0"
edition = "2021"
publish = false

[dependencies]
similar = "2"
fuzzy-matcher = "0.3"
serde = { version = "1", features = ["derive"] }
serde_json = "1"
clap = { version = "4", features = ["derive"] }
ratatui = "0.29"
crossterm = "0.28"
tokio = { version = "1", features = ["rt-multi-thread", "macros", "sync", "time"] }
tokio-util = "0.7"
gix = "*"
chrono = "0.4"
log = "0.4"
env_logger = "0.11"
