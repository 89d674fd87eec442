[package]
name = "zone_sniper"
version = "0.1.0"
edition = "2021"
publish = false

[dependencies]
anyhow = "=1.0.104"
async-trait = "=0.1.92"
binance-sdk = { version = "=77.2.0", features = ["spot"] }
bincode = "=1.3.3"
chrono = "=0.4.45"
clap = { version = "=4.6.7", features = ["derive"] }
env_logger = "=0.11.11"
futures = "=0.3.34"
log = "=0.4.35"
rayon = "=1.12.0"
serde = { version = "=1.0.229", features = ["derive"] }
serde_json = "=1.0.154"
sqlx = { version = "=0.8.6", default-features = false, features = ["sqlite", "runtime-tokio"] }
tabled = "=0.22.0"
tokio = { version = "=1.54.1", features = ["rt-multi-thread", "macros", "time", "sync"] }
tokio-tungstenite = { version = "=0.26.2", features = ["native-tls"] }
uuid = { version = "=1.29.0", features = ["v4", "v5"] }
