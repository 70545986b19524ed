[package]
name = "paddown"
version = "0.1.0"
edition = "2021"
publish = false

[dependencies]
notify = "6"
rfd = { version = "0.15", default-features = false, features = ["xdg-portal", "async-std"] }
serde = { version = "1", features = ["derive"] }
serde_json = "1"
ureq = { version = "2", features = ["json"] }
