[package]
name = "driver_indexer"
version = "0.1.0"
edition = "2021"
publish = false

[dependencies]
chardet = "=0.2.4"
encoding = "=0.2.33"
fastrand = "=1.9.0"
serde = { version = "=1.0.229", features = ["derive"] }
serde_json = "=1.0.154"
glob = "=0.3.4"
clap = "=2.34.0"
chrono = "=0.4.45"
console = "=0.15.11"
lazy_static = "=1.5.1"
remove_dir_all = "=0.7.0"
rust-embed = { version = "=8.13.0", features = ["interpolate-folder-path"] }
subprocess = "=0.2.15"
anyhow = "=1.0.104"
thiserror = "=1.0.69"
unic-langid = "=0.9.6"
fluent-templates = "=0.8.0"
winreg = "=0.10.1"
winapi = { version = "=0.3.9", features = ["cfgmgr32", "setupapi", "guiddef", "winnls", "minwindef", "windef"] }
libloading = "=0.7.4"
