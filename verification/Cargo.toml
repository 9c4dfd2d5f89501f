[package]
name = "multidb"
version = "0.1.0"
edition = "2021"
publish = false

[dependencies]
serde_json = "*"
glob = "*"
nanoid = "*"
jsonpath_lib = "*"
chrono = "*"
geohash = "*"
rmp-serde = "*"
serde = { version = "*", features = ["derive"] }
tokio = { version = "*", features = ["rt", "time", "macros", "io-util", "fs", "rt-multi-thread"] }
