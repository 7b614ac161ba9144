[package]
name = "avatar_cache"
version = "0.1.0"
edition = "2021"
publish = false

[dependencies]
image = { version = "=0.25.10", default-features = false, features = ["bmp", "gif", "jpeg", "png", "webp"] }
mime = "=0.3.17"
serde_json = "=1.0.154"
serde = { version = "=1.0.229", features = ["derive"] }
reqwest = { version = "=0.12.28", default-features = false, features = ["json", "rustls-tls"] }
xdg = "=3.0.0"
chrono = { version = "=0.4.45", features = ["serde"] }
directories = "=6.0.0"
url = { version = "=2.5.8", features = ["serde"] }
thiserror = "=2.0.21"
itertools = "=0.15.0"
bitbar = { version = "=0.10.1", features = ["base64"] }
notify-rust = "=4.18.2"
css-color-parser = "=0.1.2"
