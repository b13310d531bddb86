[package]
name = "drt"
version = "0.5.0"
edition = "2021"
publish = false

[dependencies]
clap = { version = "=4.6.7", features = ["derive"] }
futures-util = { version = "=0.3.34", features = ["sink"] }
gotatun = "=0.10.2"
httparse = "=1.10.1"
ipnetwork = "=0.21.1"
rmpv = "=1.3.1"
serde = { version = "=1.0.229", features = ["derive"] }
serde_json = "=1.0.154"
serde_path_to_error = "=0.1.20"
smoltcp = "=0.14.0"
tokio = { version = "=1.54.1", features = ["full"] }
tokio-rustls = { version = "=0.26.6", default-features = false, features = ["ring", "tls12", "logging"] }
tokio-tungstenite = { version = "=0.24.0", features = ["rustls-tls-webpki-roots"] }
webpki-roots = "=0.26.11"

[dev-dependencies]
rcgen = "0.13"
