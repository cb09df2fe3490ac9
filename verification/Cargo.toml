[package]
name = "opcua_walker"
version = "0.1.0"
edition = "2021"
publish = false

[dependencies]
anyhow = "=1.0.104"
base64 = "=0.23.1"
clap = { version = "=4.6.7", features = ["derive"] }
colored = "=3.1.1"
opcua = { version = "=0.12.0", default-features = false, features = ["client"] }
serde_json = "=1.0.151"
tabled = "=0.22.0"
tokio = { version = "=1.53.2", features = ["macros", "rt-multi-thread"] }
tracing = "=0.1.44"
tracing-subscriber = { version = "=0.3.23", features = ["env-filter"] }
