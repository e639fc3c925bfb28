[package]
name = "cargo-polylith"
version = "0.1.0"
edition = "2021"
publish = false

[dependencies]
anyhow = "1"
cargo_toml = "0.20"
clap = { version = "4", features = ["derive"] }
colored = "2"
crossterm = "0.28"
quote = "1"
ratatui = "0.29"
semver = "1"
serde = { version = "1", features = ["derive"] }
serde_json = "1"
syn = { version = "2", features = ["full"] }
thiserror = "1"
toml_edit = "0.22"
