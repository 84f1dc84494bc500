[package]
name = "manga_pdf"
version = "0.1.0"
edition = "2021"
publish = false

[dependencies]
directories = "*"
futures = "0.3"
image = { version = "0.25", default-features = false, features = ["png", "jpeg", "gif", "webp"] }
indicatif = "0.17"
inquire = "*"
lopdf = { version = "*", features = ["embed_image"] }
reqwest = { version = "0.12", default-features = false, features = ["rustls-tls"] }
serde_json = "1"
tokio = { version = "1", features = ["rt-multi-thread", "macros", "sync", "fs"] }
