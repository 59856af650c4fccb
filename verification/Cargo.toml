[package]
name = "parquet_dictionary"
version = "0.1.0"
edition = "2021"
publish = false

[dependencies]
polars-arrow = "=0.55.2"
polars-compute = { version = "=0.55.2", features = ["cast", "approx_unique"] }
polars-error = "=0.55.2"
polars-core = { version = "=0.55.2", default-features = false, features = ["random"] }
num-traits = "=0.2.19"
