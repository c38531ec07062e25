[package]
name = "chrome_devtools_cli"
version = "0.1.0"
edition = "2021"
publish = false

[dependencies]
anyhow = "1"
base64 = "0.22"
clap = { version = "4", features = ["derive", "env"] }
dirs = "*"
dom_smoothie = "*"
futures-util = "0.3"
htmd = "*"
html-escape = "0.2"
libc = "0.2"
serde = { version = "1", features = ["derive"] }
serde_json = "1"
tokio = { version = "1", features = ["full"] }
tokio-tungstenite = "*"
toon-format = "*"

[dev-dependencies]
tempfile = "3"
