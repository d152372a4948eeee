[package]
name = "oxidizr"
version = "0.1.0"
edition = "2021"
publish = false

[dependencies]
anyhow = "1"
clap = { version = "4", features = ["derive"] }
clap-verbosity-flag = { version = "3", default-features = false, features = ["tracing"] }
inquire = "*"
tracing = "0.1"
tracing-subscriber = "0.3"
uzers = "*"
which = "*"
