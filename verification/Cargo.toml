[package]
name = "deploy_agent"
version = "0.1.0"
edition = "2021"
publish = false

[dependencies]
sha2 = "0.10"
default-net = "*"
reqwest = { version = "0.12", default-features = false, features = ["json", "rustls-tls"] }
serde = { version = "1", features = ["derive"] }
tokio = { version = "1", features = ["full"] }
winreg = "*"
