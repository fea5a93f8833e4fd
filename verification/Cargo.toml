[package]
name = "rung_cli"
version = "0.1.0"
edition = "2021"
publish = false

[dependencies]
colored = "*"
serde = { version = "1", features = ["derive"] }
serde_json = "1"
clap = { version = "4", features = ["derive"] }
clap_complete = "4"
inquire = "*"
anyhow = "1"
thiserror = "*"
tokio = { version = "1", features = ["rt-multi-thread"] }
chrono = "0.4"
