[package]
name = "satisfactory_builder"
version = "0.1.0"
edition = "2021"
publish = false

[dependencies]
colored = "*"
inquire = "*"
serde = { version = "1", features = ["derive"] }
strum = { version = "*", features = ["derive"] }
uuid = { version = "1", features = ["v4", "serde"] }
