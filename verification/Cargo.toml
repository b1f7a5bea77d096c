[package]
name = "tideflow_core"
version = "0.1.0"
edition = "2021"
publish = false

[dependencies]
pulldown-cmark = "0.9"
serde_json = "1"
sha2 = "0.10"
hex = "0.4"
image = "0.24"
serde = { version = "1", features = ["derive"] }
anyhow = "1"
pdfium-render = "0.8"
