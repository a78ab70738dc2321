[package]
name = "axon"
version = "0.1.0"
edition = "2021"
publish = false

[dependencies]
rust_decimal = "=1.43.0"
serde = { version = "=1.0.229", features = ["derive"] }
serde_json = "=1.0.154"
quick-xml = "=0.42.0"
zip = { version = "=9.2.2", default-features = false, features = ["deflate"] }
base64 = "=0.22.1"
chrono = { version = "=0.4.45", default-features = false, features = ["clock"] }
csv = "=1.4.0"
calamine = "=0.38.0"
rust_xlsxwriter = { version = "=0.102.0", default-features = false }
keyring = "=3.6.3"
reqwest = { version = "=0.12.28", default-features = false, features = ["blocking", "json", "rustls-tls"] }
printpdf = { version = "=0.7.0", default-features = false }
