[package]
name = "arkbox"
version = "0.1.0"
edition = "2021"
publish = false

[dependencies]
base64 = "=0.22.1"
serde = { version = "=1.0.229", features = ["derive"] }
serde_json = "=1.0.154"
thiserror = "=1.0.69"
anyhow = "=1.0.104"
zip = "=2.6.1"
sevenz-rust = { version = "=0.6.1", features = ["aes256"] }
tar = "=0.4.46"
flate2 = "=1.1.10"
bzip2 = "=0.4.4"
xz2 = "=0.1.7"
zstd = "=0.13.4"
unrar = "=0.5.8"
xattr = "=1.7.0"
tempfile = "=3.27.0"
uuid = { version = "=1.29.0", features = ["v4"] }
dirs = "=5.0.1"
winreg = "0.52"
