[package]
name = "simple_client"
version = "0.1.0"
edition = "2021"
publish = false

[dependencies]
tokio = "0.1"
url = "1.7"
