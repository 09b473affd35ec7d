[package]
name = "ds9"
version = "0.1.0"
edition = "2021"
publish = false

[dependencies]
anyhow = "1"
fitsrs = "*"
png = "*"
rfd = { version = "0.15", default-features = false, features = ["xdg-portal", "tokio"] }
slint = { version = "1", default-features = false, features = ["std", "compat-1-2"] }
thiserror = "*"
ureq = "2"
