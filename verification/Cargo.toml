[package]
name = "attohttpc"
version = "0.1.0"
edition = "2021"
publish = false

[dependencies]
http = "1"
url = "2"
encoding_rs = "0.8"
encoding_rs_io = "0.1"
flate2 = "1"
libflate = "2"
mime = "0.3"
log = "0.4"
native-tls = "0.2"
openssl = "0.10"
serde = { version = "1", features = ["derive"] }
serde_json = "1"
serde_urlencoded = "0.7"
cookie = "0.18"
cookie_store = "0.21"
colored = "2"
