[package]
name = "ntep_launcher"
version = "0.1.0"
edition = "2021"
publish = false

[dependencies]
anyhow = "1"
chrono = "0.4"
command-group = "5"
rust-i18n = "3"
serde = { version = "1", features = ["derive"] }
sysinfo = "*"
tracing = "0.1"
