[package]
name = "markerup"
version = "0.1.0"
edition = "2021"
publish = false

[dependencies]
markdown = "1"
percent-encoding = "2"
serde = { version = "1", features = ["derive"] }
serde_json = "1"
base64 = "0.22"
merman = "*"
smb2 = "*"
tokio = { version = "1", features = ["rt", "time", "net"] }
