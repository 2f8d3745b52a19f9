[package]
name = "standard-reader"
version = "0.1.0"
edition = "2021"
publish = false

[dependencies]
atrium-api = { version = "=0.26.0", default-features = false, features = ["agent"] }
atrium-common = "=0.1.4"
atrium-identity = { version = "=0.2.0", default-features = false }
atrium-oauth = { version = "=0.2.0", default-features = false }
atrium-xrpc = "=0.12.4"
image = { version = "=0.25.10", default-features = false, features = ["png", "jpeg", "gif", "webp"] }
open = "=5.4.5"
pulldown-cmark = { version = "=0.13.6", default-features = false }
ratatui = { version = "=0.30.2", default-features = false, features = ["crossterm", "unstable-rendered-line-info"] }
ratatui-image = { version = "=11.1.0", default-features = false, features = ["crossterm"] }
redb = "=4.4.0"
reqwest = { version = "=0.13.5", default-features = false, features = ["blocking", "rustls"] }
serde = { version = "=1.0.229", features = ["derive"] }
serde_json = "=1.0.154"
tl = "=0.7.8"
tokio = { version = "=1.54.1", features = ["rt", "rt-multi-thread", "macros", "net", "io-util", "time", "sync"] }
toml = "=1.1.8"
