[package]
name = "theme_sync"
version = "0.1.0"
edition = "2021"
publish = false

[dependencies]
dirs = "5"
futures-util = "0.3"
tokio = { version = "1", features = ["fs", "macros", "rt-multi-thread"] }
zbus = { version = "3", default-features = false, features = ["tokio"] }
