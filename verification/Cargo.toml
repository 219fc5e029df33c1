[package]
name = "mojiq"
version = "0.1.0"
edition = "2021"
publish = false

[dependencies]
base64 = "0.22"
image = { version = "0.25", default-features = false, features = ["png", "jpeg"] }
urlencoding = "2"
printpdf = "0.7"
lopdf = "*"
serde = { version = "1", features = ["derive"] }
serde_json = "1"
