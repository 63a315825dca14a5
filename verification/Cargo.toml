[package]
name = "zbus_names"
version = "0.1.0"
edition = "2021"
publish = false

[dependencies]
serde = { version = "1", features = ["derive"] }
winnow = "0.7"
zvariant = "5"
