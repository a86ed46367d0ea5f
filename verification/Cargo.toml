[package]
name = "webdir"
version = "0.1.0"
edition = "2021"
publish = false

[dependencies]
percent-encoding = "*"
siphasher = "*"
data-encoding = "*"
rand = "*"
mime_guess = "*"
headers = "*"
http = "*"
bytesize = "*"
time = { version = "*", features = ["formatting"] }
tokio = { version = "*", features = ["full"] }
hyper = { version = "*", features = ["full"] }
hyper-util = { version = "*", features = ["full"] }
bytes = "*"
anyhow = "*"
structopt = "*"
tokio-rustls = "*"
rustls-pemfile = "*"
