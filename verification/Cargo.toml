[package]
name = "srv_http"
version = "0.1.0"
edition = "2021"
publish = false

[dependencies]
http = "*"
serde = { version = "*", features = ["derive"] }
serde_json = "*"
concat-string = "*"
