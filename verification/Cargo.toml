[package]
name = "vector_core"
version = "0.1.0"
edition = "2021"
publish = false

[dependencies]
semver = "1"
shlex = "1"
indexmap = "2"
regex = "1"
url = "2"
shellexpand = "3"
serde = { version = "1", features = ["derive"] }
serde_json = "1"
thiserror = "2"
anyhow = "1"
strum = { version = "0.27", features = ["derive"] }
