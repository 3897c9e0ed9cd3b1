[package]
name = "webserve"
version = "0.1.0"
edition = "2021"
publish = false

[dependencies]
mime_guess = "*"
time = { version = "*", features = ["std", "formatting", "parsing"] }
argparse = "*"
