[package]
name = "musimanager"
version = "0.1.0"
edition = "2021"
publish = false

[dependencies]
ansi_colours = "1"
image = "0.24"
anyhow = "1"
serde = { version = "1", features = ["derive"] }
serde_json = "1"
serde_yaml = "0.9"
tui = "0.19"
crossterm = { version = "0.25", features = ["event-stream"] }
tokio = { version = "1", features = ["full"] }
futures = "0.3"
lofty = "0.9"
pyo3 = "0.17"
reqwest = { version = "0.11", features = ["blocking"] }
termion = "1"
termcolor = "1"
console = "0.15"
lazy_static = "1"
fern = "0.6"
log = "0.4"
derivative = "2"
typetag = "0.2"
sixel-sys = "0.3"
