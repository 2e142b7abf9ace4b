[package]
name = "zorka"
version = "0.1.0"
edition = "2021"
publish = false

[dependencies]
base64 = "*"
uuid = { version = "*", features = ["v4"] }
qrcode = { version = "*", default-features = false, features = ["svg"] }
actix-web = { version = "4", default-features = false, features = ["macros"] }
actix-files = "*"
tera = { version = "1", default-features = false }
serde = { version = "1", features = ["derive"] }
serde_json = "1"
serde_yaml = "*"
log = "*"
reqwest = { version = "*", default-features = false, features = ["json"] }
