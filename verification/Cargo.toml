[package]
name = "rompatch_core"
version = "0.1.0"
edition = "2021"
publish = false

[dependencies]
bzip2-rs = "=0.1.2"
crc32fast = "=1.5.4"
md-5 = "=0.11.0"
sha1 = "=0.11.0"
adler = "=1.0.2"
sha2 = "=0.11.1"
uuid = { version = "=1.29.0", features = ["v4"] }
serde = { version = "=1.0.229", features = ["derive"] }
serde_json = "=1.0.154"
lexopt = "=0.3.2"
thiserror = "=2.0.21"
