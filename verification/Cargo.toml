[package]
name = "view_rev_sync"
version = "0.1.0"
edition = "2021"
publish = false

[dependencies]
md5 = "*"
tokio = { version = "*", default-features = false, features = ["sync"] }
bytes = "*"
