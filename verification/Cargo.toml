[package]
name = "omnipaxos_kv"
version = "0.1.0"
edition = "2021"
publish = false

[dependencies]
rand = "=0.8.8"
omnipaxos = "=0.1.0"
omnipaxos_storage = "=0.1.0"
commitlog = "=0.2.0"
sled = "=0.34.7"
tokio = { version = "=1.54.1", features = ["rt-multi-thread", "sync", "time", "macros"] }
actix-web = { version = "=4.18.1", default-features = false, features = ["macros"] }
http = "=0.2.12"
serde = { version = "=1.0.229", features = ["derive"] }
