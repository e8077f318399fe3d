[package]
name = "pod_index"
version = "0.1.0"
edition = "2021"
publish = false

[dependencies]
ahash = "=0.8.12"
tracing = "=0.1.44"
k8s-openapi = { version = "*", default-features = false, features = ["latest"] }
