[package]
name = "zkv"
version = "0.1.0"
edition = "2021"
publish = false

[dependencies]
hex = "=0.4.3"
zcash_protocol = { version = "=0.11.0", features = ["local-consensus"] }
zcash_address = "=0.14.0"
zcash_keys = { version = "=0.17.0", features = ["orchard", "sapling", "transparent-inputs"] }
zcash_transparent = { version = "=0.11.0", features = ["transparent-inputs"] }
zip321 = "=0.10.0"
zip32 = "=0.3.0"
bip0039 = "=0.14.2"
qrcode = { version = "=0.14.1", default-features = false }
serde = { version = "=1.0.229", features = ["derive"] }
serde_json = "=1.0.154"
toml = "=0.8.23"
flate2 = "=1.1.10"
rand = "=0.8.8"
anyhow = "=1.0.104"
clap = { version = "=4.6.7", features = ["derive"] }
tokio = { version = "=1.54.1", features = ["rt-multi-thread", "macros", "net", "signal", "sync", "time"] }
axum = "=0.7.9"
reqwest = { version = "=0.12.28", default-features = false, features = ["json"] }
rusqlite = { version = "=0.41.1", features = ["bundled"] }
fs4 = "=1.1.0"
tracing = "=0.1.44"
tracing-subscriber = { version = "=0.3.23", features = ["env-filter"] }
