[package]
name = "solana_node"
version = "0.1.0"
edition = "2021"
publish = false

[dependencies]
rocksdb = "*"
tokio = { version = "*", features = ["macros", "rt-multi-thread", "sync", "time"] }
clap = { version = "*", features = ["derive"] }
serde = { version = "*", features = ["derive"] }
toml = "*"
anyhow = "*"
tracing = "*"
tracing-subscriber = { version = "*", features = ["env-filter"] }
