[package]
name = "preferences"
version = "0.1.0"
edition = "2021"
publish = false

[dependencies]
serde = "=1.0.229"
serde_json = "=1.0.151"
app_dirs = "=1.2.1"
