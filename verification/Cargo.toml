[package]
name = "office2pdf"
version = "0.1.0"
edition = "2021"
publish = false

[dependencies]
quick-xml = "*"
unicode-normalization = "0.1"
docx-rs = "*"
serde = { version = "1", features = ["derive"] }
serde_json = "1"
zip = "*"
