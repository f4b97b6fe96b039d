[package]
name = "cargo_rr"
version = "0.1.0"
edition = "2021"
publish = false

[dependencies]
anyhow = "*"
camino = "*"
cargo_metadata = "*"
clap = { version = "*", features = ["derive"] }
ctrlc = "*"
seacan = "*"
skim = "*"
tracing = "*"
tracing-subscriber = { version = "*", features = ["env-filter"] }
