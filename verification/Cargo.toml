[package]
name = "laya"
version = "0.1.0"
edition = "2021"
publish = false

[dependencies]
anyhow = "1"
async-trait = "0.1"
aws-config = "1"
aws-credential-types = "1"
bytes = "1"
chrono = "0.4"
clap = { version = "4", features = ["derive"] }
color-eyre = "0.6"
futures = "0.3"
http-body = "1"
http-body-util = "0.1"
httpdate = "1"
hyper = { version = "1", features = ["server", "http1", "http2"] }
hyper-util = { version = "0.1", features = ["tokio", "server-auto", "service"] }
mediatype = "0.19"
mime_guess = "2"
mozjpeg = "0.10"
opendal = { version = "*", features = ["services-fs", "services-s3"] }
reqsign = "0.16"
reqwest = "0.12"
serde = { version = "1", features = ["derive"] }
serde_json = "1"
tokio = { version = "1", features = ["rt-multi-thread", "net", "sync", "macros"] }
tokio-util = "0.7"
tower = { version = "0.5", features = ["util"] }
tower-http = { version = "0.6", features = ["trace", "timeout", "sensitive-headers", "catch-panic", "cors", "normalize-path", "request-id"] }
tracing = "0.1"
