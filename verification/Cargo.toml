[package]
name = "usque"
version = "0.1.0"
edition = "2021"
publish = false

[dependencies]
async-trait = "0.1"
base64 = "0.22"
bytes = "1"
chrono = { version = "0.4", default-features = false, features = ["clock"] }
clap = { version = "4", features = ["derive"] }
etherparse = "0.21"
fast-socks5 = "1"
futures-util = { version = "0.3", default-features = false, features = ["std"] }
h2 = "0.4"
hex = "0.4"
http = "1"
http-body-util = "0.1"
humantime = "2"
hyper = { version = "1", features = ["client", "server", "http1"] }
hyper-util = { version = "0.1", features = ["tokio"] }
p256 = { version = "0.14", features = ["ecdsa", "pkcs8", "pem"] }
pem = "3"
rand = "0.10"
rcgen = "0.14"
reqwest = { version = "0.13", default-features = false, features = ["json", "rustls-no-provider"] }
rtnetlink = "*"
rustls = { version = "0.23", default-features = false, features = ["ring", "std", "tls12"] }
serde = { version = "1", features = ["derive"] }
serde_json = "1"
smoltcp = "*"
tempfile = "3"
tokio = { version = "1", features = ["full"] }
tokio-rustls = { version = "0.26", default-features = false, features = ["ring"] }
tun = { version = "*", features = ["async"] }
x509-parser = "*"
