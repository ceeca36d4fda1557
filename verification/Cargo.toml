[package]
name = "specmatrix"
version = "0.9.0"
edition = "2021"
publish = false

[dependencies]
anyhow = "1"
chrono = "0.4"
clap = { version = "4", features = ["derive"] }
opentelemetry-proto = { version = "*", default-features = false, features = ["gen-tonic-messages", "with-serde", "logs", "metrics", "trace"] }
prost = "*"
rand = "0.8"
regex = "1"
reqwest = { version = "*", default-features = false, features = ["blocking"] }
serde = { version = "1", features = ["derive"] }
serde_json = "1"
serde_yaml = "*"
snap = "1"
