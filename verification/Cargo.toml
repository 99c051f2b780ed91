[package]
name = "serde_yml"
version = "0.0.5"
edition = "2021"
publish = false

[dependencies]
serde = { version = "1", features = ["derive"] }
unsafe-libyaml = "0.2"
dtt = "0.0.5"
