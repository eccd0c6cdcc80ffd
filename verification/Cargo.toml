[package]
name = "sanity"
version = "0.1.0"
edition = "2021"
publish = false

[dependencies]
chrono = "0.4"
clap = { version = "4", features = ["derive"] }
color-eyre = "0.6"
grass = { version = "*", default-features = false }
http-body-util = "0.1"
hyper = { version = "1", features = ["http1", "server"] }
hyper-util = { version = "0.1", features = ["tokio"] }
log = "0.4"
lol_html = "*"
minify-html-onepass = "*"
minijinja = { version = "2", features = ["loader"] }
mlua = { version = "0.10", features = ["lua54", "vendored", "serialize"] }
notify = "*"
notify-debouncer-full = "*"
pretty_env_logger = "0.5"
serde_json = "1"
tokio = { version = "1", features = ["full"] }
