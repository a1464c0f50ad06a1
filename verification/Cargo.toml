[package]
name = "http_server"
version = "0.1.0"
edition = "2021"
publish = false

[dependencies]
http = "1"
tokio = { version = "1", features = ["full"] }
clap = "4"
thiserror = "1"
string_enum = "*"
