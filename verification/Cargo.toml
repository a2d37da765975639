[package]
name = "colorschemed"
version = "0.1.0"
edition = "2021"
publish = false

[dependencies]
zvariant = "5"
shell-words = "1"
clap = { version = "4", features = ["derive"] }
directories = "6"
env_logger = "0.11"
futures-util = "0.3"
log = "0.4"
serde = { version = "1", features = ["derive"] }
shellexpand = "3"
tokio = { version = "1", features = ["macros", "rt-multi-thread", "io-std", "io-util", "process"] }
toml = "0.8"
zbus = { version = "5", features = ["tokio"] }
