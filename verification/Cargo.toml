[package]
name = "url_shortener"
version = "0.1.0"
edition = "2021"
publish = false

[dependencies]
sha2 = "=0.10.9"
serde = { version = "=1.0.229", features = ["derive"] }
serde_json = "=1.0.154"
url = "=2.5.8"
validator = "=0.18.1"
quick_cache = "=0.6.24"
openraft = { version = "=0.9.25", features = ["serde", "storage-v2"] }
tokio = { version = "=1.54.1", features = ["rt-multi-thread", "macros", "sync", "time", "fs"] }
actix-web = { version = "=4.18.1", default-features = false, features = ["macros"] }
reqwest = { version = "=0.12.28", default-features = false, features = ["json"] }
rocksdb = "=0.22.0"
aws-config = "=1.13.0"
aws-sdk-s3 = "=1.157.0"
async-trait = "=0.1.92"
thiserror = "=1.0.69"
byteorder = "=1.5.0"
clap = { version = "=4.6.7", features = ["derive"] }
tracing = "=0.1.44"
tracing-subscriber = "=0.3.23"
log = "=0.4.35"
