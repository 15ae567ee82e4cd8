[package]
name = "jmap_webmail"
version = "0.1.0"
edition = "2021"
publish = false

[dependencies]
base64 = "*"
serde = { version = "*", features = ["derive"] }
serde_json = { version = "*", features = ["preserve_order"] }
tiny_http = "*"
toml = "*"
ureq = "*"
uuid = { version = "*", features = ["v7"] }
