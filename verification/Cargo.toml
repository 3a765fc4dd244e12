[package]
name = "openforge"
version = "0.1.0"
edition = "2021"
publish = false

[dependencies]
anyhow = "1"
async-trait = "0.1"
bytes = "1"
chrono = { version = "0.4", features = ["serde"] }
clap = { version = "4", features = ["derive", "env"] }
directories = "5"
dirs = "5"
futures = "0.3"
hex = "0.4"
ico = "0.3"
image = { version = "0.25", default-features = false, features = ["png"] }
indicatif = "0.17"
regex = "1"
reqwest = { version = "0.12", default-features = false, features = ["json", "blocking", "gzip", "brotli", "deflate", "stream", "rustls-tls"] }
serde = { version = "1", features = ["derive"] }
serde_json = "1"
sha1 = "0.10"
sha2 = "0.10"
thiserror = "1"
tokio = { version = "1", features = ["rt-multi-thread", "macros", "fs", "io-util"] }
toml = "0.8"
tracing-subscriber = { version = "0.3", features = ["env-filter"] }
walkdir = "2"
windows-sys = { version = "0.59", features = ["Win32_Foundation", "Win32_System_LibraryLoader", "Win32_System_Console", "Win32_UI_WindowsAndMessaging", "Win32_Graphics_Dwm"] }
