[package]
name = "spl_lib"
version = "0.1.0"
edition = "2021"
publish = false

[dependencies]
serde_json = "1"
nom = "4"
hyper = { version = "0.14", features = ["full"] }
hyper-tls = "0.5"
futures = "0.3"
http = "0.2"
tokio = { version = "1", features = ["full"] }
reqwest = { version = "0.11", features = ["blocking"] }
rust-s3 = "0.33"
rpds = "1"
leak = "0.1"
