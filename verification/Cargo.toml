[package]
name = "wmpf_debugger"
version = "0.1.0"
edition = "2021"
publish = false

[dependencies]
flate2 = "1"
prost = "0.13"
serde_json = "1"
tokio = { version = "1", features = ["rt-multi-thread", "macros", "net", "sync", "time"] }
tokio-tungstenite = "0.21"
tungstenite = "0.21"
futures-util = { version = "0.3", features = ["sink"] }

[lints.rust]
unexpected_cfgs = { level = "allow" }
