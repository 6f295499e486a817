[package]
name = "iris"
version = "0.1.0"
edition = "2021"
publish = false

[dependencies]
uuid = { version = "=1.27.0", features = ["v4", "serde"] }
serde_json = "=1.0.151"
serde = { version = "=1.0.229", features = ["derive"] }
tokio = { version = "=1.53.2", features = ["sync", "rt", "macros", "time"] }
actix-web = { version = "=4.15.0", default-features = false, features = ["macros"] }
actix-ws = "=0.4.0"
actix-cors = "=0.7.2"
futures-util = "=0.3.34"
