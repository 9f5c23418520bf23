[package]
name = "email_auth"
version = "0.1.0"
edition = "2021"
publish = false

[dependencies]
anyhow = "=1.0.104"
ed25519-dalek = "=2.2.0"
imap = "=2.4.1"
itertools = "=0.10.5"
native-tls = "=0.2.18"
rsa = "=0.9.10"
serde_json = "=1.0.154"
sha1 = { version = "=0.10.7", features = ["oid"] }
sha2 = { version = "=0.10.9", features = ["oid"] }
tokio = { version = "=1.54.1", features = ["macros", "rt-multi-thread", "time"] }
workspaces = { version = "0.7", default-features = false }
