[package]
name = "iqdb-persist"
version = "0.5.0"
edition = "2021"
publish = false

[dependencies]
crc32fast = "=1.5.4"
error-forge = "=1.0.2"
iqdb-index = "=1.0.0"
iqdb-types = "=1.0.0"
lz4_flex = "=0.11.6"
serde = { version = "=1.0.229", features = ["derive"] }
tracing = "=0.1.44"
zstd = { version = "=0.13.4", default-features = false }
