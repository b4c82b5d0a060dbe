[package]
name = "match_pdf"
version = "1.0.1"
edition = "2021"
publish = false

[dependencies]
chrono = "*"
clap = { version = "*", features = ["derive"] }
image = { version = "*", default-features = false }
magic-crypt = "*"
pdfium-render = "*"
reqwest = { version = "0.12", features = ["blocking", "json"] }
serde = { version = "*", features = ["derive"] }
serde_json = "*"
uuid = { version = "*", features = ["v4"] }
