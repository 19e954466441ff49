[package]
name = "rottingapple"
version = "0.1.0"
edition = "2021"
publish = false

[dependencies]
aes = "=0.8.4"
aes-gcm = "=0.10.3"
anyhow = "=1.0.104"
base64 = "=0.22.1"
chacha20 = "=0.9.1"
chacha20poly1305 = "=0.10.1"
clap = { version = "=4.6.7", features = ["derive"] }
ctr = "=0.9.2"
dirs = "=5.0.1"
ed25519-dalek = { version = "=2.2.0", features = ["rand_core"] }
hex = "=0.4.3"
hkdf = "=0.12.4"
mdns-sd = "=0.13.11"
num-bigint = { version = "=0.4.8", features = ["rand"] }
num-traits = "=0.2.19"
openh264 = "0.8"
plist = "=1.10.3"
poly1305 = "=0.8.0"
rand = "=0.8.8"
reqwest = { version = "=0.12.28", default-features = false }
serde = { version = "=1.0.229", features = ["derive"] }
serde_json = "=1.0.154"
sha1 = "=0.10.7"
sha2 = "=0.10.9"
tokio = { version = "=1.54.1", features = ["rt", "net", "io-util", "time", "sync", "macros"] }
tracing = "=0.1.44"
tracing-subscriber = { version = "=0.3.23", features = ["env-filter"] }
uuid = { version = "=1.29.0", features = ["v4"] }
x11rb = { version = "=0.13.2", features = ["randr"] }
x25519-dalek = { version = "=2.0.1", features = ["static_secrets"] }
