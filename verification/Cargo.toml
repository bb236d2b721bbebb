[package]
name = "meridian_mail"
version = "0.1.0"
edition = "2021"
publish = false

[dependencies]
regex = "1"
mail-parser = "0.9"
uuid = { version = "1", features = ["v4"] }
chrono = "0.4"
serde = { version = "1", features = ["derive"] }
serde_json = "1"
lettre = { version = "0.11", default-features = false, features = ["builder", "smtp-transport", "tokio1", "tokio1-native-tls", "hostname"] }
rusqlite = "0.31"
keyring = "3"
async-imap = { version = "0.10", default-features = false, features = ["runtime-tokio"] }
tokio = { version = "1", features = ["full"] }
tokio-native-tls = "0.3"
native-tls = "0.2"
futures = "0.3"
thiserror = "1"
anyhow = "1"
log = "0.4"
env_logger = "0.11"
