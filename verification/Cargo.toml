[package]
name = "telecon"
version = "0.1.0"
edition = "2021"
publish = false

[dependencies]
anyhow = "=1.0.104"
clap = { version = "=4.6.7", features = ["derive"] }
dirs = "=7.0.0"
ron = "=0.12.3"
serde = { version = "=1.0.229", features = ["derive"] }
takecell = "<0.1.2"
teloxide = { version = "=0.17.0", default-features = false, features = ["macros", "rustls", "ctrlc_handler"] }
tokio = { version = "=1.54.1", features = ["full"] }
toml = "=1.2.1"
