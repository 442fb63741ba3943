[package]
name = "vts"
version = "0.1.0"
edition = "2021"
publish = false

[dependencies]
fnv = "1"
itertools = "*"
serde = { version = "1", features = ["derive"] }
serde_json = "1"
clap = { version = "4", features = ["derive"] }
anyhow = "1"
thiserror = "*"
