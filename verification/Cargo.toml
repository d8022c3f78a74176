[package]
name = "see_k"
version = "0.2.0"
edition = "2021"
publish = false

[dependencies]
bincode = "1.3"
log = "0.4"
proc-macro2 = "1"
quinn = { version = "0.11", default-features = false, features = ["log", "runtime-tokio"] }
quote = "1"
serde = { version = "1", features = ["derive"] }
syn = "2"
tokio = { version = "1", features = ["macros", "rt", "sync", "time"] }
