[package]
name = "gpur"
version = "0.1.0"
edition = "2021"
publish = false

[dependencies]
anyhow = "=1.0.104"
clap = { version = "=4.6.7", features = ["derive"] }
clap_complete = "=4.6.11"
clap_complete_nushell = "=4.6.2"
clap_mangen = "=0.3.3"
core-foundation = "0.10"
crossterm = "=0.29.0"
hjkl-config = "=0.44.0"
hjkl-keymap = "=0.44.0"
hjkl-keymap-tui = "=0.44.0"
hjkl-kitty = "=0.44.0"
hjkl-splash = "=0.44.0"
hjkl-theme = "=0.44.0"
io-kit-sys = "*"
libc = "=0.2.191"
nvml-wrapper = "=0.13.0"
ratatui = "=0.30.2"
serde = { version = "=1.0.229", features = ["derive"] }
serde_json = "=1.0.154"
signal-hook = "=0.4.6"
sysinfo = "=0.40.1"
windows = { version = "=0.62.2", features = ["Win32_Foundation", "Win32_Graphics_Dxgi", "Win32_Graphics_Dxgi_Common", "Win32_System_Console", "Win32_System_Performance"] }
