[package]
name = "sui_sponsor"
version = "0.1.0"
edition = "2021"
publish = false

[dependencies]
dashmap = "=6.2.1"
actix-web = "=4.15.0"
actix-cors = "=0.7.2"
tokio = { version = "=1.53.2", features = ["full"] }
deadpool-redis = "=0.18.0"
rslock = "=0.5.1"
base64 = "=0.23.1"
serde = { version = "=1.0.229", features = ["derive"] }
serde_json = "=1.0.151"
borsh = "=1.8.1"
envconfig = "=0.11.1"
dotenv = "=0.15.0"
env_logger = "=0.11.11"
log = "=0.4.34"
eyre = "=0.6.14"
thiserror = "=2.0.21"
clap = { version = "=4.6.7", features = ["derive"] }
ed25519-dalek = "=3.0.0"
blake2 = "=0.11.0"
