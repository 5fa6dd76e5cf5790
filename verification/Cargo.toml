[package]
name = "helpdesk"
version = "0.1.0"
edition = "2021"
publish = false

[dependencies]
bimap = "0.6"
rust-crypto = "0.2"
uuid = { version = "1", features = ["v4"] }
serde = { version = "1", features = ["derive"] }
rocket = { version = "0.5", features = ["json"] }
diesel = { version = "2", features = ["postgres"] }
dotenvy = "0.15"
