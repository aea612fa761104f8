[package]
name = "rssstv"
version = "0.1.0"
edition = "2021"
publish = false

[dependencies]
toml_edit = "=0.25.17"
jiff = "=0.2.39"
directories = "=6.0.0"
image = { version = "=0.25.10", default-features = false, features = ["png", "jpeg", "webp"] }
image-webp = "=0.2.4"
png = "=0.18.1"
fluent-bundle = "=0.16.0"
intl-memoizer = "=0.5.3"
unic-langid = "=0.9.6"
thiserror = "=2.0.21"
