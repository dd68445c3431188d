[package]
name = "bind"
version = "0.1.0"
edition = "2021"
publish = false

[dependencies]
chrono = "0.4"
cpp_demangle = "0.4"
rustc-demangle = "0.1"
serde = { version = "1", features = ["derive"] }
serde_json = "1"
anyhow = "1"
clap = { version = "4", features = ["derive"] }
thiserror = "1"
tracing = "0.1"
tracing-subscriber = { version = "0.3", features = ["env-filter"] }
crossterm = "0.28"
ratatui = "0.29"
