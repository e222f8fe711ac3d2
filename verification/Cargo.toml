[package]
name = "tickflow"
version = "0.1.0"
edition = "2021"
publish = false

[dependencies]
serde_json = "*"
url = "*"
serde = { version = "*", features = ["derive"] }
tokio = { version = "*", features = ["full"] }
tokio-tungstenite = { version = "*", features = ["rustls-tls-webpki-roots"] }
futures-util = "*"
reqwest = { version = "*", default-features = false, features = ["json", "rustls-tls"] }
chrono = "*"
log = "*"
log4rs = "*"
gbdt = "*"

[dev-dependencies]
rust_decimal = "*"
