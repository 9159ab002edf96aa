[package]
name = "databend_query"
version = "0.1.0"
edition = "2021"
publish = false

[dependencies]
async-backtrace = "0.2"
async-trait = "0.1"
log = "0.4"
parking_lot = "0.12"
tokio = { version = "1", features = ["rt", "sync", "time"] }
