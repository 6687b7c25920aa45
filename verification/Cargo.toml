[package]
name = "search_cache"
version = "0.1.0"
edition = "2021"
publish = false

[dependencies]
anyhow = "1"
dashmap = "=6.2.1"
datafusion = { version = "=53.1.0", default-features = false }
hashbrown = "=0.15.5"
log = "0.4"
object_store = { version = "=0.13.2", default-features = false }
parking_lot = "0.12"
tantivy = { version = "=0.25.0", default-features = false }

[dev-dependencies]
chrono = "0.4"
