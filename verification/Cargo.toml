[package]
name = "web_backend"
version = "0.1.0"
edition = "2021"
publish = false

[dependencies]
qwreey-utility-rs = "*"
rocket = "0.5"
rocket_dyn_templates = { version = "*", features = ["tera"] }
serde = "1"
serde_json = "1"
