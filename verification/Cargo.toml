[package]
name = "obs_pipeline"
version = "0.1.0"
edition = "2021"
publish = false

[dependencies]
winit = { version = "0.30", default-features = false, features = ["rwh_06", "x11"] }
softbuffer = { version = "0.4", default-features = false, features = ["x11"] }
thiserror = "1"
tracing = "0.1"
tracing-subscriber = { version = "0.3", features = ["env-filter"] }
