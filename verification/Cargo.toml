[package]
name = "omni"
version = "0.1.0"
edition = "2021"
publish = false

[dependencies]
minicbor = { version = "=0.18.0", features = ["std"] }
ring = "=0.17.14"
sha3 = "=0.10.9"
clap = { version = "=3.2.25", features = ["derive"] }
tracing-subscriber = "=0.3.23"

[dev-dependencies]
regex = "=1.13.1"
