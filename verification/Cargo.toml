[package]
name = "simkernel"
version = "0.1.0"
edition = "2021"
publish = false

[dependencies]
indexmap = "2"
fxhash = "0.2"
rand = "0.8"
tinyset = "*"
csv = "1"
serde = { version = "1", features = ["derive"] }
tokio = { version = "1", default-features = false, features = ["sync"] }
