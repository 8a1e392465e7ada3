[package]
name = "sqlite3_rsync_cli"
version = "0.1.0"
edition = "2021"
publish = false

[dependencies]
log = "0.4"
minimal_logger = "*"
libsqlite3-sys = "*"
