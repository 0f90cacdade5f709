[package]
name = "thegarii"
version = "0.1.0"
edition = "2021"
publish = false

[dependencies]
base64-url = "=1.4.13"
prost = "=0.9.0"
prost-types = "=0.9.0"
structopt = "=0.3.26"
reqwest = { version = "=0.11.27", default-features = false, features = ["json", "rustls-tls"] }
tokio = { version = "=1.54.1", features = ["macros", "rt-multi-thread", "time"] }
serde = { version = "=1.0.229", features = ["derive"] }
serde_json = "=1.0.154"
thiserror = "=1.0.69"
bincode = "=1.3.3"
dirs = "=4.0.0"
env_logger = "=0.9.3"
