[package]
name = "vault_layer"
version = "0.1.0"
edition = "2021"
publish = false

[dependencies]
duckdb = { version = "=1.20000.1", default-features = false }
libsql = { version = "=0.10.0", default-features = false, features = ["core"] }
rusqlite = { version = "=0.41.1", features = ["bundled"] }
sqlite-vec = "=0.1.9"
tokio = { version = "=1.54.1", features = ["rt-multi-thread"] }
zerocopy = "=0.7.35"
