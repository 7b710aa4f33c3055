[package]
name = "foundry_js"
version = "0.1.0"
edition = "2021"
publish = false

[dependencies]
anyhow = "1"
clap = { version = "4", features = ["derive"] }
eyre = "0.6"
handlebars = "5"
serde = { version = "1", features = ["derive"] }
serde_json = "1"
solang-parser = "0.3"
