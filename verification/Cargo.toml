[package]
name = "nova-scotia"
version = "0.1.0"
edition = "2021"
publish = false

[dependencies]
ff = "0.12"
nova-snark = "0.19"
pasta_curves = "0.4"
serde = { version = "1", features = ["derive"] }
serde_json = "1"
