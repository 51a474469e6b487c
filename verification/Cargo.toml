[package]
name = "rotala"
version = "0.1.0"
edition = "2021"
publish = false

[dependencies]
rand = "0.8"
time = "0.3"
serde = { version = "1", features = ["derive"] }
actix-web = { version = "4", default-features = false, features = ["macros"] }
reqwest = { version = "0.11", default-features = false, features = ["json"] }
derive_more = "0.99"
