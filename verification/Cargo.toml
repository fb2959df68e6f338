[package]
name = "ldoce5viewer_tui"
version = "0.1.0"
edition = "2021"
publish = false

[dependencies]
anyhow = "1"
base64 = "0.22"
crossterm = "0.28"
dirs = "5"
flate2 = "1"
image = { version = "0.25", default-features = false, features = ["png", "jpeg"] }
md5 = "0.7"
memmap2 = "0.9"
quick-xml = "0.36"
ratatui = "0.28"
roxmltree = "0.20"
serde = { version = "1", features = ["derive"] }
serde_json = "1"
tantivy = "0.22"
thiserror = "1"
unicode-normalization = "0.1"
unicode-width = "0.1"

[dev-dependencies]
tempfile = "3"
