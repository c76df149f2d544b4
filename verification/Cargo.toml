[package]
name = "mod_manager"
version = "0.1.0"
edition = "2021"
publish = false

[dependencies]
uuid = { version = "1", features = ["v4"] }
serde = { version = "1", features = ["derive"] }
serde_json = "1"
dirs = "*"
zip = { version = "*", default-features = false, features = ["deflate"] }
sevenz-rust2 = "*"
unrar = "*"
reqwest = { version = "*", default-features = false, features = ["json"] }
tokio = { version = "1", features = ["rt-multi-thread", "macros", "time", "fs", "io-util", "sync"] }
futures-util = "*"
notify = "*"
