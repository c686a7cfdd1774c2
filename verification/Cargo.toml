[package]
name = "mdepub"
version = "0.1.0"
edition = "2021"
publish = false

[dependencies]
pulldown-cmark = "*"
uuid = { version = "*", features = ["v4"] }
chrono = "*"
zip = { version = "*", default-features = false, features = ["deflate"] }
serde = { version = "*", features = ["derive"] }
serde_yaml = "*"
