[package]
name = "crawler"
version = "0.1.0"
edition = "2021"
publish = false

[dependencies]
url = "1"
hyper = "0.12"
hyper-tls = "0.3"
tokio-core = "0.1"
futures = "0.1"
serde = "1"
serde_derive = "1"
serde_json = "1"
ctrlc = "3"

[dev-dependencies]
regex = "1"
