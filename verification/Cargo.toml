[package]
name = "stackmuncher"
version = "0.1.0"
edition = "2021"
publish = false

[dependencies]
regex = "*"
encoding_rs = "*"
encoding_rs_io = "*"
sha1 = "*"
uuid = { version = "*", features = ["v4"] }
chrono = "*"
serde = { version = "*", features = ["derive"] }
serde_json = "*"
