[package]
name = "fdir"
version = "0.1.0"
edition = "2021"
publish = false

[dependencies]
dirs = "5"
url = "2"
tokio = { version = "1", features = ["fs"] }
hyper = "0.14"
async-trait = "0.1"
