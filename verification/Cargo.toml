[package]
name = "duckdb_slt"
version = "0.1.0"
edition = "2021"
publish = false

[dependencies]
anyhow = "=1.0.104"
arrow-schema = "=60.1.0"
clap = { version = "=4.6.7", features = ["derive"] }
duckdb = { version = "=1.20000.1", default-features = false }
glob = "=0.3.4"
sqllogictest = "=0.29.1"
