[package]
name = "pdf_compress"
version = "0.1.0"
edition = "2021"
publish = false

[dependencies]
base64 = "0.22"
fax = "0.2"
flate2 = "1"
hayro-jbig2 = "*"
image = { version = "0.25", default-features = false, features = ["jpeg"] }
lopdf = "*"
serde = { version = "1", features = ["derive"] }
weezl = "0.1"
