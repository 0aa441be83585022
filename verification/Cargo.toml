[package]
name = "argus"
version = "0.1.0"
edition = "2021"
publish = false

[dependencies]
serde = { version = "1", features = ["derive"] }
toml = "0.8"
sysinfo = { version = "0.33", default-features = false, features = ["system"] }
crossterm = "0.28"
ratatui = "0.29"
