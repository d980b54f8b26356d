[package]
name = "knot"
version = "0.1.0"
edition = "2021"
publish = false

[dependencies]
byteorder = "1"
bytes = "0.4"
clap = "2"
env_logger = "0.5"
failure = "0.1"
futures = "0.1"
log = "0.4"
serde = { version = "1", features = ["derive"] }
tokio = "0.1"
tokio-io = "0.1"
toml = "0.4"

[dev-dependencies]
nom = "3"
