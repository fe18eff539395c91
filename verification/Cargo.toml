[package]
name = "tsvoi"
version = "0.1.0"
edition = "2021"
publish = false

[dependencies]
aes-gcm-siv = "*"
base64 = "*"
opus = "*"
flume = "*"
serde_json = "*"
stunclient = "*"
miniaudio = "*"
log = "*"
env_logger = "*"
