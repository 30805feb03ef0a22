[package]
name = "reqcraft"
version = "0.1.0"
edition = "2021"
publish = false

[dependencies]
anyhow = "1"
hyper = { version = "0.14", features = ["client", "http1", "tcp"] }
json = "0.12"
mime = "0.3"
structopt = "0.3"
syntect = { version = "5", default-features = false, features = ["default-fancy"] }
tokio = { version = "1", features = ["macros", "rt-multi-thread"] }
urlencoding = "2"
