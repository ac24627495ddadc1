[package]
name = "sts1_edu_scheduler"
version = "0.1.0"
edition = "2021"
publish = false

[dependencies]
anyhow = "1"
crc = "3"
flate2 = "1"
log = "0.4"
rmp-serde = "1"
rppal = "*"
serde = { version = "1", features = ["derive"] }
serialport = { version = "4", default-features = false }
simplelog = "*"
subprocess = "*"
thiserror = "*"
toml = "*"
zopfli = "0.8"
