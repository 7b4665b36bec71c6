[package]
name = "firmware_upload"
version = "0.1.0"
edition = "2021"
publish = false

[dependencies]
ihex = "*"
bytes = "1"
futures = "0.3"
http = "0.2"
actix-web = { version = "4", default-features = false }
actix-multipart = { version = "*", default-features = false }
