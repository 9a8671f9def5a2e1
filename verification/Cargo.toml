[package]
name = "cotuong"
version = "0.1.0"
edition = "2021"
publish = false

[dependencies]
argon2 = "=0.5.3"
base64 = "=0.22.1"
hex = "=0.4.3"
rand = "=0.8.8"
sha2 = "=0.10.9"
serde = { version = "=1.0.229", features = ["derive"] }
serde_json = "=1.0.154"
wasm-bindgen = "=0.2.130"
axum = { version = "=0.7.9", features = ["ws"] }
axum-extra = { version = "=0.9.6", features = ["cookie"] }
tokio = { version = "=1.54.1", features = ["full"] }
futures-util = "=0.3.34"
tower-http = { version = "=0.5.2", features = ["fs"] }
tracing = "=0.1.44"
tracing-subscriber = { version = "=0.3.23", features = ["env-filter"] }
chrono = { version = "=0.4.45", features = ["serde"] }
uuid = { version = "=1.29.0", features = ["v4", "serde"] }
thiserror = "=1.0.69"
async-trait = "=0.1.92"
time = "=0.3.55"
sqlx = { version = "=0.7.4", default-features = false, features = ["runtime-tokio", "sqlite", "chrono", "macros"] }
oauth2 = "=4.4.2"
reqwest = { version = "=0.11.27", default-features = false, features = ["json", "rustls-tls"] }
lettre = { version = "=0.11.23", default-features = false, features = ["builder", "smtp-transport", "tokio1", "tokio1-rustls-tls", "hostname", "ring"] }
aws-config = { version = "1", default-features = false, features = ["behavior-version-latest", "rt-tokio", "rustls"] }
aws-sdk-s3 = { version = "1", default-features = false, features = ["behavior-version-latest", "rt-tokio", "rustls"] }
