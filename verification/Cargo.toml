[package]
name = "lemicraft_launcher"
version = "0.1.0"
edition = "2021"
publish = false

[dependencies]
base64 = "=0.23.1"
chrono = "=0.4.45"
dirs = "=7.0.0"
fastnbt = "=2.6.3"
fs_extra = "=1.3.0"
hickory-resolver = "=0.26.3"
log = "=0.4.35"
open = "=5.4.5"
portablemc = "=5.0.6"
reqwest = { version = "=0.13.5", features = ["blocking", "json", "multipart"] }
serde = { version = "=1.0.229", features = ["derive"] }
serde_json = "=1.0.154"
sha2 = "=0.11.1"
sysinfo = "=0.40.1"
tokio = { version = "=1.54.1", features = ["net", "time", "io-util", "sync", "rt", "macros"] }
url = "=2.5.8"
uuid = "=1.29.0"
windows = { version = "=0.62.2", features = ["Win32_Foundation", "Win32_Security_Cryptography"] }
zip = "=9.2.2"
