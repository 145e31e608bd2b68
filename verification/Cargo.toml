[package]
name = "ftp_fighter"
version = "0.1.0"
edition = "2021"
publish = false

[dependencies]
sha256 = "=1.6.0"
new_mime_guess = "=4.0.4"
chrono = "=0.4.45"
libunftp = "=0.23.1"
unftp-core = "=0.1.0"
async-trait = "*"
tokio = { version = "*", features = ["full"] }
tokio-util = { version = "=0.7.19", features = ["io"] }
futures = "*"
reqwest = { version = "=0.13.5", default-features = false, features = ["json", "multipart", "cookies", "stream"] }
serde = { version = "*", features = ["derive"] }
thiserror = "*"
clap = { version = "=4.6.7", features = ["derive", "env"] }
dotenvy = "*"
color-eyre = "*"
tracing = "*"
tracing-subscriber = "=0.3.23"
