[package]
name = "isbn"
version = "0.1.0"
edition = "2021"
publish = false

[dependencies]
arrayvec = "0.7"
indexmap = "1.7"
quick-xml = "0.22"
serde = { version = "1.0", features = ["derive"] }
