[package]
name = "actix-i18n"
version = "0.1.0"
edition = "2021"
publish = false

[dependencies]
actix-web = { version = "=4.18.1", default-features = false }
fluent = "=0.17.0"
fluent-syntax = "=0.12.0"
intl-memoizer = "=0.5.3"
smallvec = "=1.16.4"
thiserror = "=2.0.21"
unic-langid = "=0.9.6"
