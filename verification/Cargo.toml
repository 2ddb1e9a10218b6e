[package]
name = "dechst"
version = "0.1.0"
edition = "2021"
publish = false

[dependencies]
anyhow = "1"
argon2 = "0.4"
blake3 = "1"
brotli = "3"
chacha20 = "0.9"
chrono = { version = "0.4", features = ["serde"] }
ciborium = "0.2"
clap = { version = "4", features = ["derive", "env"] }
hex = "0.4"
log = "0.4"
merge = "0.1"
os_str_bytes = "6"
print_bytes = "1"
rand = "0.8"
rpassword = "7"
serde = { version = "1", features = ["derive"] }
serde_bytes = "0.11"
serde_json = "1"
serde_with = "2"
serde_yaml = "0.9"
simplelog = "0.12"
users = "0.11"
walkdir = "2"
whoami = "1"
zeroize = { version = "1", features = ["derive"] }
