[package]
name = "dmls"
version = "0.1.0"
edition = "2021"
publish = false

[dependencies]
base64 = "*"
clap = { version = "*", features = ["derive"] }
log = "*"
openmls = "*"
openmls_rust_crypto = "*"
openmls_traits = "*"
pretty_env_logger = "*"
serde = { version = "*", features = ["derive"] }
serde_json = "*"
serde_with = { version = "*", features = ["base64", "macros"] }
tls_codec = "*"
