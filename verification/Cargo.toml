[package]
name = "collector"
version = "0.1.0"
edition = "2021"
publish = false

[dependencies]
sha1 = "=0.10.7"
hex = "=0.4.3"
chrono = "=0.4.45"
anyhow = "=1.0.104"
clap = { version = "=4.6.7", features = ["derive"] }
tokio = { version = "=1.54.1", features = ["fs", "io-util", "macros", "rt-multi-thread"] }
serde = { version = "=1.0.229", features = ["derive"] }
serde_yml = "=0.0.12"
serde_json = "=1.0.154"
glob = "=0.3.4"
walkdir = "=2.5.0"
zip = { version = "=2.6.1", default-features = false, features = ["deflate", "aes-crypto"] }
sysinfo = "=0.40.1"
filetime = "=0.2.29"
csv-async = { version = "=1.3.1", features = ["tokio"] }
log = "=0.4.35"
simplelog = "=0.12.2"
uuid = { version = "=1.29.0", features = ["v4"] }
ntfs = "=0.4.0"
widestring = "=1.2.1"
winapi = { version = "=0.3.9", features = ["processthreadsapi", "securitybaseapi", "winnt", "minwindef", "rpcdce", "winerror", "cguid", "combaseapi", "objidl", "vsbackup", "vss", "fileapi"] }
