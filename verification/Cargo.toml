[package]
name = "rustle"
version = "0.1.0"
edition = "2021"
publish = false

[dependencies]
base64 = "0.22"
chrono = "0.4"
env_logger = "0.11"
gettext-rs = { version = "0.7", features = ["gettext-system"] }
gio = "*"
glib = "*"
gtk4 = "*"
hex = "0.4"
html-escape = "0.2"
imap = "=3.0.0-alpha.15"
imap-proto = "0.16"
lettre = "0.11"
libadwaita = "*"
log = "0.4"
mail-parser = "0.11"
mime_guess = "2"
native-tls = "0.2"
percent-encoding = "2"
regex = "1"
rusqlite = { version = "*", features = ["bundled"] }
secret-service = { version = "5", features = ["rt-async-io-crypto-rust"] }
serde = { version = "1", features = ["derive"] }
serde_json = "1"
sha2 = "0.10"
thiserror = "2"
ureq = { version = "3", default-features = false, features = ["native-tls"] }
webkit6 = "*"

[dev-dependencies]
tempfile = "3"
