[package]
name = "livequery"
version = "0.1.0"
edition = "2021"
publish = false

[dependencies]
ciborium = "0.2"
geo = "*"
geo-types = "0.7"
once_cell = "1"
revision = "*"
serde = { version = "1", features = ["derive"] }
url = "2"
uuid = { version = "1", features = ["v4"] }
