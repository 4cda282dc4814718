[package]
name = "djvuxml"
version = "0.1.0"
edition = "2021"
publish = false

[dependencies]
quick-xml = "0.22"
regex = "1"
clap = { version = "2", default-features = false }
zip = { version = "0.6", default-features = false, features = ["deflate"] }
serde = { version = "1", features = ["derive"] }
serde_json = "1"
streaming-stats = "0.2"
num-traits = "0.2"
