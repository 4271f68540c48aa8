[package]
name = "dblint"
version = "0.1.0"
edition = "2021"
publish = false

[dependencies]
tera = "1"
postgres = "0.19"
postgres-from-row = "*"
serde = { version = "1", features = ["derive"] }
serde_json = "1"
