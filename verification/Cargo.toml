[package]
name = "pyramus"
version = "0.1.0"
edition = "2021"
publish = false

[dependencies]
glam = "*"
image = { version = "*", default-features = false, features = ["png", "jpeg", "gif"] }
usvg = { version = "*", default-features = false }

[dev-dependencies]
base62 = "*"
serde_json = "*"
