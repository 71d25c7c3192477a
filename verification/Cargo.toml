[package]
name = "sitemap_parser"
version = "0.1.0"
edition = "2021"
publish = false

[dependencies]
url = "=2.5.8"
quick-xml = "=0.37.5"
reqwest = { version = "=0.12.28", default-features = false, features = ["rustls-tls"] }
tokio = { version = "=1.54.1", features = ["rt-multi-thread", "sync", "time", "macros"] }
futures = "=0.3.34"
log = "=0.4.34"
pyo3 = { version = "0.25", features = ["abi3", "extension-module"] }
pyo3-async-runtimes = { version = "0.25", features = ["tokio-runtime"] }
pyo3-log = "*"
