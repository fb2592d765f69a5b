[package]
name = "vault_kv"
version = "0.1.0"
edition = "2021"
publish = false

[dependencies]
diesel = { version = "*", features = ["r2d2", "mysql_backend"] }
r2d2 = "*"
serde = { version = "*", features = ["derive"] }
serde_json = "*"
