[package]
name = "hyperlight_unikraft"
version = "0.1.0"
edition = "2021"
publish = false

[dependencies]
anyhow = "=1.0.104"
async-openai = { version = "=0.29.6" }
base64 = "=0.22.1"
clap = { version = "=4.6.7", features = ["derive"] }
dotenvy = "=0.15.7"
hyperlight-host = "=0.16.0"
libc = "=0.2.191"
memmap2 = "=0.9.12"
nix = { version = "=0.29.0", features = ["fs"] }
serde_json = "=1.0.154"
socket2 = { version = "=0.5.10", features = ["all"] }
tempfile = "=3.27.0"
tokio = { version = "=1.54.1", features = ["rt-multi-thread", "macros"] }
tracing = "=0.1.44"
tracing-subscriber = { version = "=0.3.23", features = ["env-filter"] }
windows-sys = { version = "=0.61.2", features = ["Win32_Foundation", "Win32_System_IO", "Win32_System_Ioctl"] }
