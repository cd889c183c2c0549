[package]
name = "psql_stats"
version = "0.1.0"
edition = "2021"
publish = false

[dependencies]
postgres = "*"
serde_json = "*"
clap = { version = "4", features = ["derive"] }
colored = "*"
