[package]
name = "miniprinter"
version = "0.1.0"
edition = "2021"
publish = false

[dependencies]
escpos = { version = "=0.20.1", features = ["graphics"] }
jiff = { version = "=0.2.38", features = ["serde"] }
resvg = "=0.48.1"
serde = { version = "=1.0.229", features = ["derive"] }
serde_json = "=1.0.151"
unicode-width = "=0.2.2"
ureq = { version = "=3.4.2", features = ["json"] }
