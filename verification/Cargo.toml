[package]
name = "privy"
version = "0.1.0"
edition = "2021"
publish = false

[dependencies]
getrandom = "0.3"
tokio = { version = "1", features = ["full"] }
clap = { version = "4", features = ["derive"] }
