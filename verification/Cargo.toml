[package]
name = "depwatch"
version = "0.1.0"
edition = "2021"
publish = false

[dependencies]
semver = "1"
rustsec = { version = "*", default-features = false }
crates-index = "*"
tokio = { version = "*", features = ["rt", "time"] }
