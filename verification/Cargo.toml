[package]
name = "dbstruct"
version = "0.4.1"
edition = "2021"
publish = false

[dependencies]
bincode = { version = "2", features = ["serde"] }
serde = { version = "1", features = ["derive"] }
thiserror = "1"
