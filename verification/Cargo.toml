[package]
name = "sorg"
version = "0.1.0"
edition = "2021"
publish = false

[dependencies]
argmap = "=1.1.2"
chrono = "=0.4.45"
crossbeam-channel = "=0.5.17"
deunicode = "*"
file-serve = "=0.3.11"
notify-debouncer-mini = "=0.7.0"
orgize = { version = "=0.9.0", features = ["syntect"] }
rand = "=0.10.3"
rss = { version = "=2.1.2", features = ["atom"] }
serde = { version = "=1.0.229", features = ["derive"] }
tera = "=1.20.1"
url = "=2.5.8"
vfs = "=0.13.0"
websocket = { version = "=0.27.1", default-features = false, features = ["sync"] }
words-count = "=0.1.7"

[dev-dependencies]
slugmin = "=1.0.2"
