[package]
name = "hreq"
version = "0.1.0"
edition = "2021"
publish = false

[dependencies]
futures-core = "0.3"
futures-io = "0.3"
h2 = "0.3"
http = "0.2"
httparse = "1"
rustls = { version = "0.19", default-features = false }
webpki = "0.21"
