[package]
name = "stellar_rates"
version = "0.1.0"
edition = "2021"
publish = false

[dependencies]
stellar-strkey = "*"
time = { version = "0.3", features = ["formatting", "parsing"] }
serde = { version = "1", features = ["derive"] }
serde_json = "1"
