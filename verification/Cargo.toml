[package]
name = "xcstringsdocx"
version = "0.1.0"
edition = "2021"
publish = false

[dependencies]
anyhow = "1"
clap = { version = "4", features = ["derive"] }
docx-rust = "*"
env_logger = "*"
log = "0.4"
serde = { version = "1", features = ["derive"] }
serde_json = "1"
serde-json-fmt = "*"
swift_localizable_json_parser = "*"
