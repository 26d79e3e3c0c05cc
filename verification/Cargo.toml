[package]
name = "unicloud"
version = "0.1.0"
edition = "2021"
publish = false

[dependencies]
aes-gcm = "0.10"
uuid = { version = "1", features = ["v4"] }
url = "2"
hex = "0.4"
jsonwebtoken = "9"
serde = { version = "1", features = ["derive"] }
serde_json = "1"
chrono = "0.4"
axum = "0.8"
axum-extra = { version = "0.10", features = ["cookie"] }
tokio = { version = "1", features = ["full"] }
reqwest = { version = "0.12", default-features = false, features = ["json"] }
redis = { version = "0.32", features = ["tokio-comp", "connection-manager"] }
sea-orm = { version = "1", default-features = false, features = ["macros", "with-uuid", "with-chrono", "with-json"] }
dotenvy = "0.15"
once_cell = "1"
tower-http = { version = "0.6", features = ["cors"] }
http = "1"
thiserror = "2"
futures = "0.3"
futures-util = "0.3"
futures-channel = "0.3"
tokio-tungstenite = "0.26"
cookie = "0.18"
hyper = { version = "1", features = ["server", "http1"] }
hyper-util = { version = "0.1", features = ["tokio"] }
bytes = "1"
log = "0.4"
async-trait = "0.1"
