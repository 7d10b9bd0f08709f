[package]
name = "lemon_tokei"
version = "0.1.0"
edition = "2021"
publish = false

[dependencies]
actix-web = "4"
cached = "*"
csscolorparser = "*"
dotenvy = "*"
env_logger = "*"
eyre = "*"
log = "*"
percent-encoding = "2"
rsbadges = "*"
serde = { version = "1", features = ["derive"] }
serde_json = "1"
tempfile = "3"
tokei = "*"
