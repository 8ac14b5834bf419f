[package]
name = "conduit_auth"
version = "0.1.0"
edition = "2021"
publish = false

[dependencies]
jsonwebtoken = { version = "=11.1.0", default-features = false, features = ["rust_crypto"] }
bcrypt = "=0.19.3"
uuid = "=1.27.0"
chrono = "=0.4.45"
