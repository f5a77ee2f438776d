[package]
name = "wkg"
version = "0.1.0"
edition = "2021"
publish = false

[dependencies]
wit-component = "=0.261.0"
clap = { version = "=4.6.7", features = ["derive"] }
tempfile = "=3.27.0"
anyhow = "=1.0.104"

[dev-dependencies]
wit-parser = "=0.261.0"
