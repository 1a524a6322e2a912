[package]
name = "npm_offline"
version = "0.1.0"
edition = "2021"
publish = false

[dependencies]
semver = "1"
url = "2"
sha1 = "0.10"
base16ct = { version = "0.2", features = ["alloc"] }
serde = { version = "1", features = ["derive"] }
serde_json = { version = "1", features = ["preserve_order"] }
reqwest = { version = "0.12", default-features = false, features = ["blocking", "json"] }
clap = { version = "4", features = ["derive"] }
