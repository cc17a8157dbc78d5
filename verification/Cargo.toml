[package]
name = "lilterm"
version = "0.1.0"
edition = "2021"
publish = false

[dependencies]
crossterm = "0.29"
libc = "0.2"
ratatui = { version = "0.30", features = ["unstable-widget-ref"] }
unicode-width = "0.2"

[dev-dependencies]
vt100 = "0.15"
