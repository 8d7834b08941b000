[package]
name = "eth_log_indexer"
version = "0.1.0"
edition = "2021"
publish = false

[dependencies]
sqlx = { version = "*", features = ["sqlite", "runtime-tokio"] }
tokio = { version = "1", features = ["rt-multi-thread", "macros", "time"] }
clap = { version = "4", features = ["derive"] }
log = "0.4"
futures = "0.3"
