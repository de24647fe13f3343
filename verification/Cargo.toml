[package]
name = "key_sync"
version = "0.1.0"
edition = "2021"
publish = false

[dependencies]
regex = "1"
uuid = { version = "1", features = ["v4"] }
anyhow = "1"
async-trait = "0.1"
chrono = "0.4"
thiserror = "1"
serde_json = "1"
tokio = { version = "1", features = ["macros", "rt-multi-thread"] }
tokio-util = "0.7"
http = "0.2"
prost = "0.11"
tonic = "0.9"
sea-orm = { version = "0.11", default-features = false, features = ["macros", "with-json", "with-chrono", "sqlx-postgres", "runtime-tokio-rustls"] }
google-cloud-pubsub = "*"
google-cloud-gax = "*"
