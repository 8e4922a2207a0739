[package]
name = "qgrep"
version = "0.1.0"
edition = "2021"
publish = false

[dependencies]
clap = "*"
enum-set = "*"
glob = "*"
log = "*"
pcre = "*"
xdg-basedir = "*"
