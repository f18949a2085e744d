[package]
name = "magpkg"
version = "0.1.0"
edition = "2021"
publish = false

[dependencies]
clap = { version = "4", default-features = false, features = ["derive", "std", "help", "usage", "error-context"] }
filetime = "0.2"
flate2 = "1"
fs2 = "0.4"
hex = "0.4"
jrsonnet-evaluator = "0.4.2"
jrsonnet-stdlib = "0.4.2"
librqbit = "=8.1.1"
num_cpus = "1"
reqwest = { version = "0.12", features = ["blocking"] }
sha2 = "0.10"
tar = "0.4"
thiserror = "2"
tokio = { version = "1", features = ["rt", "rt-multi-thread", "sync", "time", "signal", "macros"] }
zstd = "0.13"
