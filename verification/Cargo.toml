[package]
name = "pixel_app"
version = "0.1.0"
edition = "2021"
publish = false

[dependencies]
image = { version = "0.24", default-features = false, features = ["png", "gif"] }
gif = "0.13"
imageproc = { version = "0.23", default-features = false }
clap = { version = "4", features = ["derive"] }
serde = { version = "1", features = ["derive"] }
serde_json = "1"
sqlx = { version = "0.7", default-features = false, features = ["sqlite", "runtime-tokio", "migrate", "macros"] }
sqlx-sqlite = "0.7"
tokio = { version = "1", features = ["full"] }
warp = { version = "0.3", default-features = false, features = ["multipart"] }
handlebars = "4"
uuid = { version = "1", features = ["v4"] }
log = "0.4"
pretty_env_logger = "0.5"
bytes = "1"
futures = "0.3"
web-view = "0.7"
