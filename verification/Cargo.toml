[package]
name = "pwdmgr"
version = "0.1.0"
edition = "2021"
publish = false

[dependencies]
aes-gcm = "=0.10.3"
argon2 = "=0.5.3"
base64 = "=0.22.1"
chrono = "=0.4.45"
clap = { version = "=4.6.7", features = ["derive"] }
dirs = "=7.0.0"
rand = "=0.8.8"
rpassword = "=7.5.4"
uuid = { version = "=1.27.0", features = ["v4"] }
zeroize = "=1.9.1"
