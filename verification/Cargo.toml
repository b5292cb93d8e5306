[package]
name = "llama_server"
version = "0.1.0"
edition = "2021"
publish = false

[dependencies]
directories = "6"
reqwest = { version = "0.12", features = ["json"] }
serde = { version = "1", features = ["derive"] }
sipper = "0.1"
tokio = { version = "1", features = ["fs", "io-util", "process", "rt", "time"] }
zip = { version = "2", default-features = false, features = ["deflate"] }
