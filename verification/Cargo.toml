[package]
name = "photo_archiver"
version = "0.1.0"
edition = "2021"
publish = false

[dependencies]
chrono = "*"
diesel = { version = "*", features = ["sqlite"] }
env_logger = "*"
eyre = "*"
futures = "*"
google-photoslibrary1 = "*"
hyper = "*"
hyper-rustls = "*"
libsqlite3-sys = { version = "*", features = ["bundled"] }
log = "*"
reqwest = { version = "*", default-features = false, features = ["rustls-tls", "stream"] }
serde_json = "*"
structopt = "*"
thiserror = "*"
tokio = { version = "*", features = ["full"] }
yup-oauth2 = "*"
