[package]
name = "tracey"
version = "0.1.0"
edition = "2021"
publish = false

[dependencies]
blake3 = "1"
globset = "0.4"
pulldown-cmark = { version = "0.13", default-features = false }
serde_json = "1"
url = "2"
dirs = "6"
eyre = "0.6"
ignore = "0.4"
notify-debouncer-mini = "0.6"
owo-colors = "4"
tokio = { version = "1", features = ["rt", "macros", "time", "sync", "process", "io-util"] }
tracing = "0.1"
tracing-subscriber = { version = "0.3", features = ["env-filter"] }
urlencoding = "2"
