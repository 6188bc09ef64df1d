[package]
name = "filehost"
version = "0.1.0"
edition = "2021"
publish = false

[dependencies]
actix-files = "0.6"
actix-multipart = "0.7"
actix-web = { version = "4", default-features = false, features = ["macros", "http2", "cookies"] }
anyhow = "1"
blake3 = "1"
clap = { version = "4", features = ["derive"] }
deadpool = { version = "*", features = ["rt_tokio_1"] }
dotenvy = "0.15"
env_logger = "0.11"
env-settings-derive = "*"
env-settings-utils = "*"
file_type = "0.8"
futures-util = "0.3"
image = { version = "0.25", default-features = false, features = ["jpeg", "png", "gif", "webp", "bmp"] }
log = "0.4"
mime = "0.3"
mime_guess = "2"
percent-encoding = "2"
rand = "*"
regex = "1"
reqwest = { version = "0.13", default-features = false }
serde = { version = "1", features = ["derive"] }
sha2 = "*"
sqlx = { version = "*", default-features = false, features = ["mysql", "runtime-tokio", "time", "uuid", "macros", "migrate"] }
tempfile = "3"
time = { version = "0.3", features = ["formatting", "parsing", "macros"] }
tinytemplate = "1"
tokio = { version = "1", features = ["full"] }
tract-onnx = "*"
uuid = { version = "1", features = ["v4"] }
