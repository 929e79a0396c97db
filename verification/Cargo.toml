[package]
name = "ratect-core"
version = "0.1.0"
edition = "2021"
publish = false

[dependencies]
anyhow = "1"
async-trait = "*"
bollard = "*"
docker_credential = "*"
futures = "*"
path-clean = "*"
rsa = "*"
serde = { version = "1", features = ["derive"] }
serde_json = "1"
sha2 = "*"
signature = "*"
ssh-key = { version = "0.6.7", features = ["std", "ed25519", "rsa", "p256", "p384"] }
tokio = { version = "1", features = ["full"] }
toml = "*"
tracing = "*"
url = "2"
uuid = { version = "1", features = ["v4"] }
