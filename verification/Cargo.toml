[package]
name = "hangar_application"
version = "0.1.0"
edition = "2021"
publish = false

[dependencies]
sha2 = "=0.10.9"
sha1 = "0.10"
hex = "=0.4.3"
rand = "=0.9.5"
base64 = "=0.22.1"
semver = "=1.0.28"
totp-rs = { version = "=6.0.0", features = ["otpauth"] }
serde_json = "=1.0.154"
uuid = { version = "=1.29.0", features = ["v4"] }
chrono = "=0.4.45"
thiserror = "=2.0.21"
