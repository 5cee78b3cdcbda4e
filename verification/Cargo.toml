[package]
name = "dd3"
version = "0.1.0"
edition = "2021"
publish = false

[dependencies]
bollard = "*"
color-eyre = "*"
crossterm = "*"
dirs = "*"
futures = "*"
glam = "*"
miniz_oxide = "*"
ratatui = "*"
serde = { version = "*", features = ["derive"] }
tokio = { version = "*", features = ["full"] }
toml = "*"
