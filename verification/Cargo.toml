[package]
name = "heap_sentry"
version = "0.1.0"
edition = "2021"
publish = false

[dependencies]
backtrace = "0.3"
lazy_static = "1.4"
tracing = "0.1"
jemallocator = "0.5"
mimalloc = "0.1"
