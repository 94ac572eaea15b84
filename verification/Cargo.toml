[package]
name = "sharding"
version = "0.1.0"
edition = "2021"
publish = false

[dependencies]
indexmap = "2"
sysinfo = "0.33"
postgres = "0.19"
serde = { version = "1", features = ["derive"] }
serde_yaml = "0.9"
users = "0.11"
rust_decimal = { version = "1", features = ["db-postgres"] }
