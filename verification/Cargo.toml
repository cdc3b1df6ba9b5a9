[package]
name = "ishell"
version = "0.1.0"
edition = "2021"
publish = false

[dependencies]
getrandom = "0.2"
russh = { version = "0.61", default-features = false, features = ["ring"] }
egui = { version = "0.34", default-features = false }
egui-phosphor = { version = "0.12", default-features = false, features = ["regular"] }
tokio = { version = "1", features = ["rt", "net", "io-util", "sync", "time", "macros"] }
serde = { version = "1", features = ["derive"] }
serde_json = "1"
libc = "0.2"
log = "0.4"
