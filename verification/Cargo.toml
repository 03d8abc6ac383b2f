[package]
name = "projectfinder"
version = "0.1.0"
edition = "2021"
publish = false

[dependencies]
clap = { version = "4", features = ["cargo"] }
lazy_static = "1"
serde = { version = "1", features = ["derive"] }
shellexpand = "3"
termion = "2"
thiserror = "1"
toml = "0.8"
tracing = "0.1"
tracing-subscriber = "0.3"
