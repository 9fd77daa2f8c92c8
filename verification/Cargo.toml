[package]
name = "pata"
version = "0.1.0"
edition = "2021"
publish = false

[dependencies]
sha2 = "=0.10.9"
serde = { version = "=1.0.229", features = ["derive"] }
serde_json = "=1.0.154"
toml = "=0.8.23"
anyhow = "=1.0.104"
pulldown-cmark = { version = "=0.10.3", default-features = false }
dap = "=0.4.1-alpha1"

[dev-dependencies]
tempfile = "=3.27.0"
