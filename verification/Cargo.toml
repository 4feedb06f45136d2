[package]
name = "ctddump"
version = "0.1.0"
edition = "2021"
publish = false

[dependencies]
chrono = "0.4"
glob = "0.3"
clap = { version = "4", features = ["derive"] }
serde = { version = "1", features = ["derive"] }
serde_yaml = "0.9"
toml = "0.8"
walkdir = "2"
rayon = "1"
gsw = "*"
num-traits = "0.2"
netcdf = "*"
polars = { version = "0.43", default-features = false, features = ["lazy", "parquet", "dtype-datetime", "strings", "rank", "cum_agg", "concat_str", "round_series"] }
