[package]
name = "mcfmt"
version = "0.1.0"
edition = "2021"
publish = false

[dependencies]
pulldown-cmark = { version = "=0.13.5", default-features = false }
pulldown-cmark-to-cmark = "=23.0.0"
anyhow = "=1.0.104"
structopt = "=0.3.26"
tempfile = "=3.27.0"
toml = { version = "=1.1.8", features = ["preserve_order"] }
serde = { version = "=1.0.229", features = ["derive"] }
