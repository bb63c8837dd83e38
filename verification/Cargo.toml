[package]
name = "pkgcraft"
version = "0.1.0"
edition = "2021"
publish = false

[dependencies]
indexmap = "=2.14.2"
regex = "=1.13.1"
rust-ini = "*"
serde = { version = "=1.0.229", features = ["derive"] }
strum = { version = "=0.26.3", features = ["derive"] }
