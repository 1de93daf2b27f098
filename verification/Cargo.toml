[package]
name = "numbat_session"
version = "0.1.0"
edition = "2021"
publish = false

[dependencies]
numbat = { version = "=1.24.0", default-features = false, features = ["html-formatter", "fetch-exchangerates"] }
html-escape = "=0.2.15"
codespan-reporting = "=0.12.0"
compact_str = "=0.9.1"
serde = { version = "=1.0.229", features = ["derive"] }
serde_json = "=1.0.151"
