[package]
name = "sandman"
version = "0.1.0"
edition = "2021"
publish = false

[dependencies]
string-interner = "=0.20.0"
tokio = { version = "=1.53.2", features = ["full"] }
bincode = { version = "=2.0.1", features = ["derive"] }
anyhow = "=1.0.104"
