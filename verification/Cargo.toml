[package]
name = "snap-rs"
version = "0.1.0"
edition = "2021"
publish = false

[dependencies]
anyhow = "1"
clap = "4"
log = "0.4"
plotters = { version = "0.3", default-features = false, features = ["svg_backend", "line_series"] }
pretty_env_logger = "0.5"
rusqlite = "*"
rustyline = "*"
serde = { version = "1", features = ["derive"] }
serde_json = "1"
thiserror = "*"
zip = { version = "*", default-features = false, features = ["deflate"] }
