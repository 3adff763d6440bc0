[package]
name = "ratty"
version = "0.1.0"
edition = "2021"
publish = false

[dependencies]
anyhow = "1"
arboard = { version = "=3.7.0", default-features = false }
base64 = "=0.23.1"
clap = { version = "4", features = ["derive"] }
compact_str = "=0.10.0"
etcetera = "=0.11.0"
getrandom = "=0.4.3"
portable-pty = "=0.9.0"
rand = "=0.10.3"
rio-graphics = "=0.5.29"
rio-vt = "=0.5.29"
serde = { version = "1", features = ["derive"] }
serde_json = "1"
shellexpand = "=3.1.2"
tobj = "=4.0.5"
toml = "=1.1.8"
unicode-segmentation = "=1.13.3"
unicode-width = "=0.2.3"
vte = "=0.15.0"
