[package]
name = "watame"
version = "0.1.0"
edition = "2021"
publish = false

[dependencies]
actix-cors = "0.6"
actix-files = "0.6"
actix-multipart = "0.6"
actix-service = "2"
actix-web = { version = "4", features = ["rustls"] }
async-std = "1"
base64 = "0.13"
byteorder = "1"
bytes = "1"
chrono = { version = "0.4", default-features = false, features = ["std", "serde"] }
deadpool-postgres = "0.10"
derive_more = "0.99"
dotenv = "0.15"
futures = "0.3"
image = { version = "0.24", default-features = false, features = ["bmp", "gif", "jpeg", "png", "tiff", "webp"] }
log = "0.4"
postgres-types = { version = "0.2", features = ["derive", "with-chrono-0_4"] }
rand = "0.8"
redis = { version = "0.21", default-features = false, features = ["aio", "tokio-comp"] }
rust-argon2 = "1"
rustls = "0.20"
rustls-pemfile = "1"
sanitize-filename = "*"
serde = { version = "1", features = ["derive"] }
serde_json = "1"
simple_logger = { version = "2", default-features = false }
structopt = "0.3"
