[package]
name = "aircraft_loader"
version = "0.1.0"
edition = "2021"
publish = false

[dependencies]
uuid = { version = "*", features = ["v4"] }
mongodb = "*"
tokio = { version = "*", features = ["macros", "rt-multi-thread"] }
dotenv = "*"
