[package]
name = "docwatch"
version = "0.1.0"
edition = "2021"
publish = false

[dependencies]
anyhow = "1"
argon2 = "0.5"
axum = "0.6"
axum-macros = "0.3"
clap = { version = "4", features = ["derive"] }
diff = "0.1"
dotenv = "0.15"
include_dir = "0.7"
mime_guess = "2"
password-hash = "0.5"
quick-xml = "0.31"
rand_core = { version = "0.6", features = ["getrandom"] }
regex = "1"
reqwest = { version = "0.11", default-features = false, features = ["json", "rustls-tls"] }
serde = { version = "1", features = ["derive"] }
serde_json = "1"
sqlx = { version = "0.7", default-features = false, features = ["runtime-tokio", "sqlite", "migrate"] }
tiny_http = "0.12"
tokio = { version = "1", features = ["full"] }
tower-cookies = "0.9"
urlencoding = "2"
uuid = { version = "1", features = ["v4"] }
webbrowser = "0.8"
zip = { version = "0.6", default-features = false, features = ["deflate"] }
