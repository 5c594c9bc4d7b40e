[package]
name = "cobbler"
version = "0.1.0"
edition = "2021"
publish = false

[dependencies]
serde_json = "*"
humantime = "*"
serde = { version = "*", features = ["derive"] }
serde_yaml = "*"
clap = { version = "*", features = ["derive", "env"] }
mdns-sd = "*"
flume = "*"
reqwest = { version = "*", default-features = false, features = ["blocking", "json"] }
tabwriter = "*"
axum = "*"
tokio = { version = "*", features = ["rt-multi-thread", "macros", "net", "signal"] }
gethostname = "*"
tracing = "*"
tracing-subscriber = { version = "*", features = ["env-filter", "fmt"] }
apt-pkg-native = "*"
