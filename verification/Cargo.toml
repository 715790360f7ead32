[package]
name = "territory_engine"
version = "0.1.0"
edition = "2021"
publish = false

[dependencies]
geo = "*"
image = "*"
serde = { version = "*", features = ["derive"] }
serde_json = "*"
