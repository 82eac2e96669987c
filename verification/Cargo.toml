[package]
name = "md_export"
version = "0.1.0"
edition = "2021"
publish = false

[dependencies]
comrak = { version = "0.52", default-features = false }
anyhow = "1"
clap = { version = "4", features = ["derive"] }
