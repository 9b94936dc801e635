[package]
name = "memorabooth"
version = "0.1.0"
edition = "2021"
publish = false

[dependencies]
image = { version = "0.25", default-features = false, features = ["jpeg", "png"] }
serde = { version = "1", features = ["derive"] }
serde_json = "1"
log = "0.4"
dotenv = "0.15"
reqwest = { version = "0.12", default-features = false, features = ["multipart", "rustls-tls"] }
ab_glyph = "0.2"
chrono = { version = "0.4", default-features = false, features = ["clock"] }
