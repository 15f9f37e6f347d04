[package]
name = "zip_password_finder"
version = "0.1.0"
edition = "2021"
publish = false

[dependencies]
ahash = "0.8"
clap = { version = "4", features = ["cargo"] }
ctrlc = "3"
hmac = "0.12"
humantime = "2"
indicatif = "0.17"
num_cpus = "1"
pbkdf2 = "0.12"
sha1 = "0.10"
thiserror = "1"
zip = { version = "2", default-features = false, features = ["aes-crypto", "deflate"] }
