[package]
name = "heimdall"
version = "0.1.0"
edition = "2021"
publish = false

[dependencies]
url = "=2.5.8"
glob = "=0.3.4"
mime = "=0.3.17"
mime_guess = "=2.0.5"
dashmap = "=5.5.3"
rand = "=0.7.3"
argonautica = "=0.2.0"
chrono = "=0.4.45"
hyper = { version = "=0.14.32", features = ["full"] }
tokio = { version = "=1.54.1", features = ["full"] }
redis = "=0.22.4"
tera = "=1.20.1"
serde = { version = "=1.0.229", features = ["derive"] }
simd-json = "=0.7.0"
envy = "=0.4.2"
log = "=0.4.35"
futures = "=0.3.34"
lazy_static = "=1.5.1"
derive_more = "=0.99.20"
http = "=0.2.12"
