[package]
name = "inertia_axum"
version = "0.1.0"
edition = "2021"
publish = false

[dependencies]
axum = { version = "=0.8.9", features = ["multipart"] }
axum-extra = { version = "=0.10.3", features = ["cookie", "cookie-private", "cookie-signed"] }
serde = { version = "=1.0.229", features = ["derive"] }
serde_json = "=1.0.154"
subtle = "=2.6.1"
getrandom = "=0.3.4"
form_urlencoded = "=1.2.2"
futures-util = "=0.3.34"
tracing = "=0.1.44"
reqwest = { version = "=0.12.28", default-features = false, features = ["json"] }
tera = { version = "=1.20.1", default-features = false }
validator = { version = "=0.20.0", features = ["derive"] }
async-trait = "=0.1.92"
ts-rs = "=12.0.1"
rrgen = "=0.6.0"
