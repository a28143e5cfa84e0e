[package]
name = "webdesk"
version = "0.1.0"
edition = "2021"
publish = false

[dependencies]
rand = "0.8"
mime_guess = "2"
serde = { version = "1", features = ["derive"] }
serde_json = "1"
axum = { version = "0.8", features = ["ws"] }
tokio = { version = "1", features = ["full"] }
hyper = { version = "1", features = ["client", "http1"] }
hyper-util = { version = "0.1", features = ["tokio"] }
tokio-rustls = { version = "0.26", default-features = false, features = ["ring", "tls12", "logging"] }
futures-util = { version = "0.3", features = ["sink"] }
bytes = "1"
nix = { version = "0.29", features = ["user", "hostname", "fs"] }
libc = "0.2"
users = "0.11"
portable-pty = "0.8"
tracing = "0.1"
tracing-subscriber = { version = "0.3", features = ["env-filter"] }
