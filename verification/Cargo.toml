[package]
name = "cbx"
version = "0.1.0"
edition = "2021"
publish = false

[dependencies]
ciborium = "0.2"
ratatui = "0.29"
crossterm = "0.28"
clap = { version = "4", features = ["derive"] }
color-eyre = "0.6"
directories = "5"
toml = "0.8"
serde = { version = "1", features = ["derive"] }
