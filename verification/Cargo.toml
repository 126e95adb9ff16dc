[package]
name = "mdviewer"
version = "0.1.0"
edition = "2021"
publish = false

[dependencies]
markdown = "=1.0.0"
anyhow = "=1.0.104"
log = "=0.4.34"
env_logger = "=0.11.11"
textwrap = { version = "=0.16.4", features = ["terminal_size"] }

[dev-dependencies]
nu-ansi-term = "=0.50.3"
