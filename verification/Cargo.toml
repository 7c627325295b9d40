[package]
name = "dockyard"
version = "0.1.0"
edition = "2021"
publish = false

[dependencies]
anyhow = "1"
bollard = "*"
futures-util = "0.3"
relm4 = { version = "0.11", features = ["libadwaita", "gnome_46"] }
tracing = "0.1"
tracing-subscriber = { version = "0.3", features = ["env-filter"] }
