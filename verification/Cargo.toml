[package]
name = "manga_reader"
version = "0.1.0"
edition = "2021"
publish = false

[dependencies]
zip = { version = "2", default-features = false, features = ["deflate"] }
bitcode = { version = "0.6", features = ["serde"] }
serde = { version = "1", features = ["derive"] }
directories = "6"
