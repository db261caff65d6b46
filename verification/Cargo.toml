[package]
name = "relay_core"
version = "0.1.0"
edition = "2021"
publish = false

[dependencies]
bytes = "=1.12.1"
chrono = { version = "=0.4.45", default-features = false, features = ["std"] }
fjall = "=2.11.2"
futures = "=0.3.34"
hashbrown = "=0.17.1"
lru = "=0.19.0"
mio = { version = "=1.2.4", features = ["os-poll", "os-ext"] }
multibase = "=0.9.3"
reqwest = { version = "=0.12.28", default-features = false, features = ["rustls-tls"] }
rusqlite = { version = "=0.40.2", features = ["bundled"] }
serde = { version = "=1.0.229", features = ["derive"] }
serde_ipld_dagcbor = "=0.7.0"
serde_json = { version = "=1.0.154", features = ["raw_value"] }
thingbuf = "=0.1.6"
thiserror = "=2.0.21"
tokio = { version = "=1.54.1", features = ["rt", "time"] }
tracing = "=0.1.44"
urlencoding = "=2.1.3"
