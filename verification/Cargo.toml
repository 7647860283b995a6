[package]
name = "pgdog-quota"
version = "0.1.0"
edition = "2021"
publish = false

[dependencies]
arc-swap = "1"
http-body-util = "0.1"
hyper = { version = "1", features = ["http1", "server"] }
hyper-util = { version = "0.1", features = ["tokio"] }
once_cell = "1"
parking_lot = "0.12"
pg_query = "6"
tokio = { version = "1", features = ["net", "rt", "rt-multi-thread", "time", "macros"] }
tokio-postgres = "0.7"
tokio-postgres-rustls = "0.13"
tracing = "0.1"
