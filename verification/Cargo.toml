[package]
name = "monte_catano"
version = "0.1.0"
edition = "2021"
publish = false

[dependencies]
rand = "0.10"
serde = { version = "1", features = ["derive"] }
ron = "*"
clap = { version = "4", features = ["derive"] }
colored = "*"
anyhow = "1"
