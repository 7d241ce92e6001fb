[package]
name = "fand"
version = "0.1.0"
edition = "2021"
publish = false

[dependencies]
clap = { version = "4", features = ["derive"] }
deno_core = "*"
dlopen = "0.1"
dlopen_derive = "0.1"
env_logger = "*"
log = "0.4"
serde = { version = "1", features = ["derive"] }
signal-hook = "0.3"
toml = "*"
