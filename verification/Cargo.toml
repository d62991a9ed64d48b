[package]
name = "git_remote_igit"
version = "0.1.0"
edition = "2021"
publish = false

[dependencies]
candid_parser = "*"
ic-agent = "*"
rpassword = "*"
serde_json = "1"
sha2 = "0.10"
tempfile = "3"
tokio = { version = "1", features = ["rt-multi-thread"] }
