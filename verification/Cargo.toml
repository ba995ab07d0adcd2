[package]
name = "epub_reader"
version = "0.1.0"
edition = "2021"
publish = false

[dependencies]
regex = "=1.13.1"
html5ever = "=0.26.0"
markup5ever_rcdom = "=0.2.0"
quick-xml = { version = "=0.31.0", features = ["serialize"] }
serde = { version = "=1.0.229", features = ["derive"] }
serde_json = "=1.0.154"
zip = { version = "=0.6.6", default-features = false, features = ["deflate"] }
dirs-next = "=2.0.0"
crossterm = "=0.27.0"
ratatui = "=0.26.3"
