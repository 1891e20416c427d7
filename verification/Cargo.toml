[package]
name = "streamcrypt"
version = "0.1.0"
edition = "2021"
publish = false

[dependencies]
aead = "=0.6.1"
aes-gcm = "=0.11.1"
chacha20poly1305 = { version = "=0.11.0", features = ["reduced-round"] }
rust-argon2 = "=3.0.0"
rand = "=0.8.8"
clap = { version = "=4.6.7", features = ["derive"] }
rpassword = "=7.5.4"
zeroize = "=1.9.1"
