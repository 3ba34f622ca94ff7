[package]
name = "analyzer_benches"
version = "0.1.0"
edition = "2021"
publish = false

[dependencies]
pprof = { version = "=0.15.0", default-features = false, features = ["flamegraph"] }
temp-dir = "0.1"
tracing = "=0.1.44"
