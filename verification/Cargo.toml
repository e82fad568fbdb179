[package]
name = "resty"
version = "0.1.0"
edition = "2021"
publish = false

[dependencies]
httparse = "1"
url = "2"
smol = "2"
serde = { version = "1", features = ["derive"] }
serde_json = "1"
serde-xml-rs = "*"
linkme = "0.3"
syn = { version = "2", features = ["full"] }
quote = "1"
proc-macro2 = "1"
