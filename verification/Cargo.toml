[package]
name = "badlogvis"
version = "0.1.0"
edition = "2021"
publish = false

[dependencies]
base64 = "*"
colored = "*"
csv = "*"
flate2 = "*"
open = "*"
serde = { version = "*", features = ["derive"] }
serde_derive = "*"
serde_json = "*"
sha1 = "*"
structopt = "*"
tempfile = "*"
