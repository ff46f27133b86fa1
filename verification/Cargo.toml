[package]
name = "transcode_server"
version = "0.1.0"
edition = "2021"
publish = false

[dependencies]
uuid = { version = "=1.27.0", features = ["v4"] }
sanitize-filename = "=0.6.0"
tokio = { version = "*", features = ["full"] }
warp = { version = "=0.4.3", features = ["server"] }
serde = { version = "*", features = ["derive"] }
serde_json = "*"
dotenv = "*"
chrono = "*"
jsonwebtoken = "*"

[dev-dependencies]
base64 = "=0.23.1"
