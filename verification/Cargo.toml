[package]
name = "dioxus_swdir_tree_core"
version = "0.7.0"
edition = "2021"
publish = false

[dependencies]
swdir = "*"
futures-util = "0.3"
dioxus = { version = "0.7", default-features = false, features = ["macro", "html", "hooks", "signals"] }
