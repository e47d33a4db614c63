[package]
name = "parallax"
version = "0.1.0"
edition = "2021"
publish = false

[dependencies]
jsonschema = { version = "=0.60.2", default-features = false }
robotstxt = "=0.3.0"
rs-trafilatura = "=0.2.2"
schemars = "*"
serde = { version = "=1.0.229", features = ["derive"] }
serde_json = "=1.0.154"
url = "=2.5.8"
