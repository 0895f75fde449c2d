[package]
name = "ycurl"
version = "0.1.0"
edition = "2021"
publish = false

[dependencies]
indexmap = { version = "2", features = ["serde"] }
serde_json = { version = "1", features = ["preserve_order"] }
serde = { version = "1", features = ["derive"] }
clap = { version = "4", features = ["derive"] }
reqwest = { version = "0.12", features = ["blocking"] }
chrono = "0.4"
itertools = "0.13"
bat = { version = "*", default-features = false, features = ["regex-fancy"] }

[dev-dependencies]
regex = "1"
