[package]
name = "evmnodetooling"
version = "0.1.0"
edition = "2021"
publish = false

[dependencies]
actix-web = "4"
diesel = { version = "2.2", features = ["sqlite"] }
dotenvy = "0.15"
serde = { version = "1", features = ["derive"] }
serde_json = "1"

[dev-dependencies]
rand = "0.9"
