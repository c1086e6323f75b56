[package]
name = "seatbelt"
version = "0.1.0"
edition = "2021"
publish = false

[dependencies]
clap = { version = "4", features = ["derive"] }
color-eyre = "*"
eyre = "*"
serde = { version = "1", features = ["derive"] }
yaml_serde = "*"
thiserror = "*"

[dev-dependencies]
tempfile = "3"
