[package]
name = "greptime_verified"
version = "0.1.0"
edition = "2021"
publish = false

[dependencies]
arrow = { version = "57", default-features = false }
parquet = { version = "57", default-features = false, features = ["arrow"] }
tonic = { version = "0.12", default-features = false, features = ["codegen", "transport"] }
http-body-util = "0.1"
bytes = "1"
url = "2"
async-trait = "0.1"
futures = "0.3"
prost = "0.13"
object-pool = "0.5"
lazy_static = "1"
snafu = "0.8"
snap = "1"
zstd = { version = "0.13", default-features = false }
tracing = "0.1"
