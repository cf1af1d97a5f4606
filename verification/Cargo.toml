[package]
name = "beebfam_core"
version = "0.1.0"
edition = "2021"
publish = false

[dependencies]
chrono = { version = "*", default-features = false, features = ["clock", "std"] }
uuid = { version = "*", features = ["v4"] }
mime_guess = "*"
axum = "*"
axum-extra = { version = "*", features = ["cookie"] }
tokio = { version = "*", features = ["rt-multi-thread", "macros", "net"] }
serde = { version = "*", features = ["derive"] }
serde_json = "*"
dotenvy = "*"
reqwest = { version = "*", default-features = false, features = ["json"] }
time = "*"
