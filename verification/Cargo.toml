[package]
name = "fingerprinting"
version = "0.1.0"
edition = "2021"
publish = false

[dependencies]
halo2-axiom = "*"
bigint = "4"
bs58 = "*"
chrono = "0.4"
iso_currency = "*"
anyhow = "1"
bytes = "1"
clap = { version = "4", features = ["derive"] }
env_logger = "*"
log = "0.4"
hocon = { version = "*", default-features = false, features = ["serde-support"] }
serde = { version = "1", features = ["derive"] }
tokio = { version = "1", features = ["full"] }
futures = "0.3"
volo = "*"
volo-grpc = "*"
pilota = "*"

[dev-dependencies]
rand = "0.8"
