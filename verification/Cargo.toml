[package]
name = "master_and_servant"
version = "0.1.0"
edition = "2021"
publish = false

[dependencies]
corncobs = "*"
crc = "*"
serde = { version = "1", features = ["derive"] }
serde_derive = "1"
serial2 = "*"
ssmarshal = "*"
