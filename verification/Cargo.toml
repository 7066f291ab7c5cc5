[package]
name = "pgdog"
version = "0.1.0"
edition = "2021"
publish = false

[dependencies]
bit-vec = "=0.10.1"
bytes = "=1.12.1"
clap = { version = "=4.6.7", features = ["derive"] }
futures = "=0.3.34"
parking_lot = "=0.12.5"
pg_raw_parse = "=0.1.0"
rand = "=0.9.5"
regex = "=1.13.1"
tokio = { version = "=1.54.1", features = ["full"] }
tokio-util = { version = "=0.7.20", features = ["rt"] }
tracing = "=0.1.44"
uuid = "1"
