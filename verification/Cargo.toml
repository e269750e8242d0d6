[package]
name = "strata_ol"
version = "0.1.0"
edition = "2021"
publish = false

[dependencies]
tree_hash = "*"
uuid = { version = "*", features = ["v4"] }
serde = { version = "*", features = ["derive"] }
thiserror = "*"
borsh = { version = "*", features = ["derive"] }
sled = "*"
tokio = { version = "*", features = ["sync", "time", "rt", "macros"] }
