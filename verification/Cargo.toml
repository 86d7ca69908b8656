[package]
name = "recommender"
version = "0.1.0"
edition = "2021"
publish = false

[dependencies]
sprs = "*"
actix-web = "*"
reqwest = { version = "*", default-features = false, features = ["rustls-tls"] }
zip = "*"
csv = "*"
log = "*"
simple_logger = "*"
serde = { version = "*", features = ["derive"] }
