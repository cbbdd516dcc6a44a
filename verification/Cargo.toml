[package]
name = "open-forti-manager"
version = "0.1.0"
edition = "2021"
publish = false

[dependencies]
sha2 = "0.10"
rustls-pemfile = "2"
rustls = { version = "0.23", default-features = false, features = ["ring", "std", "tls12", "logging"] }
rustls-native-certs = "0.7"
webpki-roots = "0.26"
serde = { version = "1", features = ["derive"] }
serde_json = "1"
dirs = "5"
libc = "0.2"
log = "0.4"
env_logger = "0.11"
tokio = { version = "1", features = ["rt-multi-thread"] }
ksni = "0.3"
gtk4 = "0.9"
libadwaita = "0.7"
rfd = { version = "0.15", default-features = false, features = ["xdg-portal", "tokio"] }
