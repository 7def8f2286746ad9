[package]
name = "rustxes"
version = "0.2.0"
edition = "2021"
publish = false

[dependencies]
chrono = "=0.4.45"
flate2 = "=1.1.10"
polars = { version = "0.51", default-features = false, features = ["dtype-datetime"] }
process_mining = { version = "=0.6.2", features = ["dataframes"] }
pyo3 = "*"
pyo3-polars = "0.24"
quick-xml = "=0.42.0"
serde = { version = "=1.0.229", features = ["derive"] }
serde_json = "=1.0.154"
uuid = "=1.29.0"
