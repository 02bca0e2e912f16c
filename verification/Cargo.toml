[package]
name = "tmux-mcp"
version = "0.1.0"
edition = "2021"
publish = false

[dependencies]
alacritty_terminal = "=0.25.1"
brush-parser = "=0.3.0"
cel-parser = "=0.10.1"
clap = { version = "4", features = ["derive"] }
fs2 = "0.4"
globset = "=0.4.21"
hostname = "0.4"
notify = "=8.2.1"
regex = "=1.13.1"
rmcp = { version = "=1.8.0", features = ["server", "transport-io"] }
serde = { version = "1", features = ["derive"] }
serde_json = "1"
snafu = "0.8"
tokio = { version = "1", features = ["full"] }
tokio-util = { version = "0.7", features = ["codec"] }
toml = "=1.1.8"
tracing = "0.1"
tracing-subscriber = { version = "0.3", features = ["env-filter"] }
vte = "=0.15.0"
