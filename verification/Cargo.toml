[package]
name = "buyers_checker"
version = "0.1.0"
edition = "2021"
publish = false

[dependencies]
rust_xlsxwriter = "*"
tokio = { version = "*", features = ["full"] }
clap = { version = "*", features = ["derive"] }
tracing = "*"
tracing-subscriber = { version = "*", features = ["env-filter"] }
miette = "*"
