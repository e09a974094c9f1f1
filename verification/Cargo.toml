[package]
name = "accounts_indexer"
version = "0.1.0"
edition = "2021"
publish = false

[dependencies]
anyhow = "=1.0.104"
bigdecimal = "=0.4.11"
futures = "=0.3.34"
hex = "=0.4.3"
near-crypto = "=0.37.4"
sqlx = { version = "=0.9.0", default-features = false, features = ["postgres", "runtime-tokio", "bigdecimal"] }
