[package]
name = "gitblog"
version = "0.1.0"
edition = "2021"
publish = false

[dependencies]
chrono = "0.4"
comrak = "*"
ignore = "0.4"
regex = "1"
quick-xml = { version = "*", features = ["serialize"] }
gix = "*"
gix-pack = "*"
html5ever = "*"
reqwest = { version = "*", default-features = false, features = ["blocking", "rustls-tls"] }
serde = { version = "1", features = ["derive"] }
tokio = { version = "1", features = ["rt-multi-thread"] }
toml = "*"
opendal = { version = "*", default-features = false }
tempfile = "3"
tracing-subscriber = { version = "0.3", features = ["env-filter"] }
log = "0.4"
clap = { version = "4", features = ["derive"] }
tera = { version = "1", default-features = false }
