[package]
name = "translation_checker"
version = "0.1.0"
edition = "2021"
publish = false

[dependencies]
anyhow = "1"
clap = "4"
fancy-regex = "*"
indexmap = { version = "2", features = ["serde"] }
serde_json = "1"
