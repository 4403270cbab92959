[package]
name = "masp_read_layer"
version = "0.1.0"
edition = "2021"
publish = false

[dependencies]
anyhow = "=1.0.104"
bincode = "=1.3.3"
# Names the runtime without which the pool takes no wait timeout.
deadpool = { version = "=0.12.3", features = ["rt_tokio_1"] }
diesel = { version = "=2.2.12", default-features = false, features = ["postgres_backend"] }
diesel-async = { version = "=0.5.2", features = ["postgres", "deadpool"] }
# diesel-async calls the try_join macro of futures-util and leaves the
# feature that holds it switched off; naming the crate switches it on.
futures-util = "=0.3.34"
reqwest = { version = "=0.11.27", default-features = false, features = ["cookies", "json", "rustls-tls"] }
tendermint-rpc = { version = "=0.40.4", features = ["http-client"] }
tokio = { version = "=1.54.1", features = ["rt-multi-thread", "macros", "time"] }
tryhard = "=0.5.2"
xorf = { version = "=0.11.0", features = ["serde"] }
