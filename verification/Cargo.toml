[package]
name = "onvif_cam"
version = "0.1.0"
edition = "2021"
publish = false

[dependencies]
url = "*"
uuid = { version = "*", features = ["v4"] }
tokio = { version = "*", features = ["rt", "net", "time", "macros"] }
reqwest = { version = "*", default-features = false }
