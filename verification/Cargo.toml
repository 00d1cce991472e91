[package]
name = "rusttv"
version = "0.1.0"
edition = "2021"
publish = false

[dependencies]
chrono = "0.4"
console = "*"
dialoguer = "*"
flexi_logger = "*"
indicatif = "*"
log = "*"
proc-lock = "*"
serde = { version = "1", features = ["derive"] }
serde_json = "1"
ssh2 = "*"
thiserror = "1"
toml = "*"
ureq = "2"
whoami = "*"

[dev-dependencies]
strsim = "0.10"
