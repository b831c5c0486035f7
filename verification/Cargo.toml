[package]
name = "ohm"
version = "0.1.0"
edition = "2021"
publish = false

[dependencies]
bdk = { version = "=0.28.2", default-features = false, features = ["std", "electrum", "keys-bip39"] }
bip39 = { version = "=2.2.2", features = ["rand"] }
uuid = { version = "=1.27.0", features = ["v4"] }
email_address = "=0.2.9"
rust_decimal = "=1.43.0"
chrono = "=0.4.45"
serde = { version = "=1.0.229", features = ["derive"] }
serde_yaml = "=0.9.34"
url = { version = "=2.5.8", features = ["serde"] }
structopt = "=0.3.26"
