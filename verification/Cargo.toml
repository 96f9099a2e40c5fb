[package]
name = "idn45"
version = "0.1.0"
edition = "2021"
publish = false

[dependencies]
hex = "0.4"
anyhow = "1"
clap = { version = "4", features = ["derive"] }
