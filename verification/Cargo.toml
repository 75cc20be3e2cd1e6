[package]
name = "gnome-brightness"
version = "0.1.0"
edition = "2021"
publish = false

[dependencies]
async-channel = "2"
directories = "5"
gettext-rs = "0.7"
gtk4 = "*"
libadwaita = { version = "*", features = ["v1_4"] }
ksni = "0.3"
libc = "0.2"
serde = { version = "1", features = ["derive"] }
tokio = { version = "1", features = ["rt"] }
toml = "0.8"
