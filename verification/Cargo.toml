[package]
name = "session_log"
version = "0.1.0"
edition = "2021"
publish = false

[dependencies]
uuid = { version = "1", features = ["v4"] }
sled = "0.34"
tungstenite = "0.19"
warp = "0.3"
tokio = { version = "1", features = ["rt-multi-thread", "macros", "io-std", "io-util", "sync", "signal"] }
async-openai = "0.10"
paris = { version = "1.5", features = ["macros"] }
url = "2"
