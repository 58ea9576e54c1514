[package]
name = "oghcollector"
version = "0.1.0"
edition = "2021"
publish = false

[dependencies]
actix-cors = "=0.7.2"
actix-files = "=0.6.10"
actix-multipart = "=0.7.2"
actix-session = { version = "=0.10.1", features = ["cookie-session"] }
actix-web = "=4.18.1"
array_tool = "=1.0.3"
cached = { version = "=4.0.3", default-features = false, features = ["time_stores"] }
chrono = "=0.4.45"
config = { version = "=0.15.27", default-features = false, features = ["toml"] }
duct = "=1.1.2"
env_logger = "=0.11.11"
fs_extra = "=1.3.0"
lazy_static = "=1.5.1"
log = "=0.4.34"
minijinja = { version = "=2.24.0", features = ["loader"] }
minijinja-autoreload = "=2.24.0"
pyo3 = "=0.20.3"
r2d2 = "=0.8.10"
r2d2_sqlite = "=0.35.0"
regex = "=1.13.1"
reqwest = { version = "=0.13.5", features = ["json"] }
rusqlite = "=0.40.2"
serde = { version = "=1.0.229", features = ["derive"] }
serde_json = { version = "=1.0.154", features = ["preserve_order"] }
tokio = { version = "=1.54.1", features = ["full"] }
tokio_schedule = "=0.3.2"
url = "=2.5.8"
urlencoding = "=2.1.3"
