[package]
name = "musfuse"
version = "0.1.0"
edition = "2021"
publish = false

[dependencies]
sled = "*"
flac-codec = "*"
symphonia = "*"
lofty = "*"
clap = { version = "*", features = ["derive"] }
anyhow = "*"

[dev-dependencies]
tempfile = "*"
hound = "*"
