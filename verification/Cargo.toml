[package]
name = "git"
version = "0.1.0"
edition = "2021"
publish = false

[dependencies]
anyhow = "*"
futures = "*"
git2 = { version = "*", default-features = false }
log = "*"
parking_lot = "*"
schemars = "0.8"
serde = { version = "1", features = ["derive"] }
smol = "*"
