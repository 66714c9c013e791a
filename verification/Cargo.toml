[package]
name = "yaml_repair"
version = "0.1.0"
edition = "2021"
publish = false

[dependencies]
serde_yaml = "0.9"
actix-web = "4"
actix-multipart = "*"
futures-util = "0.3"
reqwest = { version = "0.12", default-features = false, features = ["json"] }
serde = { version = "1", features = ["derive"] }
tempfile = "3"
uuid = { version = "1", features = ["v4"] }
sanitize-filename = "*"
anyhow = "1"
dotenv = "*"
tracing = "0.1"
