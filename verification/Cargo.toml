[package]
name = "otiscorp_remote"
version = "2.4.0"
edition = "2021"
publish = false

[dependencies]
base64 = "0.22"
jpeg-encoder = "0.6"
rustls = { version = "0.23", default-features = false, features = ["ring", "std", "tls12"] }
serde = { version = "1", features = ["derive"] }
serde_json = "1"
socket2 = "0.5"
sysinfo = "0.32"
webpki-roots = "0.26"
