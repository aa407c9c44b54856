[package]
name = "indexer"
version = "0.1.0"
edition = "2021"
publish = false

[dependencies]
anyhow = "*"
base64 = "*"
chrono = "*"
ignore = "*"
memchr = "*"
proc-macro2 = { version = "*", features = ["span-locations"] }
quote = "*"
serde = { version = "*", features = ["derive"] }
serde_json = "*"
sha1 = "*"
sha2 = "*"
syn = { version = "*", features = ["full", "printing"] }

[dev-dependencies]
hex = "*"
