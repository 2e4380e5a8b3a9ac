[package]
name = "conditional_orderbook"
version = "0.1.0"
edition = "2021"
publish = false

[dependencies]
rust_decimal = { version = "=1.43.0", default-features = false, features = ["std", "serde"] }
url = "=2.5.8"
uuid = { version = "=1.29.0", features = ["v4"] }
actix = "=0.13.5"
actix-web = { version = "=4.18.1", default-features = false, features = ["macros", "ws"] }
actix-web-actors = "=4.3.1"
derive_more = { version = "=2.1.1", features = ["display"] }
dotenvy = "=0.15.7"
futures-util = { version = "=0.3.34", features = ["sink"] }
rand = "=0.8.8"
serde = { version = "=1.0.229", features = ["derive"] }
serde_json = "=1.0.154"
thiserror = "=2.0.21"
tokio = { version = "=1.54.1", features = ["rt-multi-thread", "macros", "sync", "time"] }
tokio-tungstenite = "=0.30.0"
tracing = "=0.1.44"
tracing-subscriber = { version = "=0.3.23", features = ["env-filter", "fmt"] }
