[package]
name = "parq"
version = "0.1.0"
edition = "2021"
publish = false

[dependencies]
parquet = { version = "*", default-features = false }
regex = "*"
walkdir = "*"
tabwriter = "*"
unicode-width = "*"
rand = "*"
streaming-stats = "*"
clap = "*"

[dev-dependencies]
tempfile = "*"
