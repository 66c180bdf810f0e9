[package]
name = "cpr"
version = "0.1.0"
edition = "2021"
publish = false

[dependencies]
anstyle = "*"
clap = { version = "*", features = ["derive"] }
convert_case = "*"
dirs = "*"
log = "*"
miette = "*"
requestty = "*"
serde = { version = "*", features = ["derive"] }
simple_logger = "*"
thiserror = "*"
toml = "*"
