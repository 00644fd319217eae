[package]
name = "media_watch"
version = "0.1.0"
edition = "2021"
publish = false

[dependencies]
inotify = "0.10"
log = "0.4"
pretty_env_logger = "0.5"
